//! The full error type: an error code and a span, plus expected and
//! suggested codes, causes and user data.

use crate::spans::Span;
use crate::{Code, ErrOrNomErr, KParseError, NomErr};

use vstd::prelude::*;

verus! {

/// Contains an error code and the span.
#[derive(Clone, Copy, Debug)]
pub struct SpanAndCode<C, I> {
    /// Error code
    pub code: C,
    /// Span
    pub span: I,
}

/// Extra information added to a ParserError. Causes and user data are
/// values of the payload type `X`.
#[derive(Debug)]
pub enum Hints<C, I, X = ()> {
    /// Expected outcome of the parser.
    Expect(SpanAndCode<C, I>),
    /// Suggestions from the parser.
    Suggest(SpanAndCode<C, I>),
    /// External cause for the error.
    Cause(X),
    /// Extra user context.
    UserData(X),
}

/// Parser error.
#[derive(Debug)]
pub struct ParserError<C, I, X = ()> {
    /// Error code
    pub code: C,
    /// Error span
    pub span: I,
    /// Extra information
    pub hints: Vec<Hints<C, I, X>>,
}

/// The expected codes among the hints, in order.
pub open spec fn expects<C, I, X>(h: Seq<Hints<C, I, X>>) -> Seq<SpanAndCode<C, I>>
    decreases h.len(),
{
    if h.len() == 0 {
        Seq::empty()
    } else {
        expects(h.drop_last()) + match h.last() {
            Hints::Expect(v) => seq![v],
            _ => Seq::empty(),
        }
    }
}

/// The suggested codes among the hints, in order.
pub open spec fn suggests<C, I, X>(h: Seq<Hints<C, I, X>>) -> Seq<SpanAndCode<C, I>>
    decreases h.len(),
{
    if h.len() == 0 {
        Seq::empty()
    } else {
        suggests(h.drop_last()) + match h.last() {
            Hints::Suggest(v) => seq![v],
            _ => Seq::empty(),
        }
    }
}

/// The first cause among the hints.
pub open spec fn first_cause<C, I, X>(h: Seq<Hints<C, I, X>>) -> Option<X>
    decreases h.len(),
{
    if h.len() == 0 {
        None
    } else {
        match h[0] {
            Hints::Cause(x) => Some(x),
            _ => first_cause(h.drop_first()),
        }
    }
}

/// The first user data among the hints.
pub open spec fn first_user_data<C, I, X>(h: Seq<Hints<C, I, X>>) -> Option<X>
    decreases h.len(),
{
    if h.len() == 0 {
        None
    } else {
        match h[0] {
            Hints::UserData(x) => Some(x),
            _ => first_user_data(h.drop_first()),
        }
    }
}

/// `code` occurs among the entries.
pub open spec fn has_code<C, I>(s: Seq<SpanAndCode<C, I>>, code: C) -> bool {
    exists|i: int| 0 <= i < s.len() && (#[trigger] s[i]).code == code
}

/// Pushing a hint extends the expected codes by that hint's own.
proof fn lemma_expects_push<C, I, X>(h: Seq<Hints<C, I, X>>, x: Hints<C, I, X>)
    ensures
        expects(h.push(x)) == expects(h) + match x {
            Hints::Expect(v) => seq![v],
            _ => Seq::empty(),
        },
        suggests(h.push(x)) == suggests(h) + match x {
            Hints::Suggest(v) => seq![v],
            _ => Seq::empty(),
        },
{
    assert(h.push(x).drop_last() == h);
}

/// The expected codes of concatenated hints are concatenated.
proof fn lemma_expects_append<C, I, X>(a: Seq<Hints<C, I, X>>, b: Seq<Hints<C, I, X>>)
    ensures
        expects(a + b) == expects(a) + expects(b),
        suggests(a + b) == suggests(a) + suggests(b),
    decreases b.len(),
{
    if b.len() == 0 {
        assert(a + b == a);
        assert(expects(a) + Seq::<SpanAndCode<C, I>>::empty() == expects(a));
        assert(suggests(a) + Seq::<SpanAndCode<C, I>>::empty() == suggests(a));
    } else {
        lemma_expects_append(a, b.drop_last());
        assert((a + b).drop_last() == a + b.drop_last());
        assert((a + b).last() == b.last());
        assert(expects(a) + expects(b.drop_last()) + match b.last() {
            Hints::Expect(v) => seq![v],
            _ => Seq::empty(),
        } == expects(a) + (expects(b.drop_last()) + match b.last() {
            Hints::Expect(v) => seq![v],
            _ => Seq::empty(),
        }));
        assert(suggests(a) + suggests(b.drop_last()) + match b.last() {
            Hints::Suggest(v) => seq![v],
            _ => Seq::empty(),
        } == suggests(a) + (suggests(b.drop_last()) + match b.last() {
            Hints::Suggest(v) => seq![v],
            _ => Seq::empty(),
        }));
    }
}

impl<C: Code, I: Copy, X> ParserError<C, I, X> {
    /// New error.
    pub fn new(code: C, span: I) -> (r: Self)
        ensures
            r.code == code,
            r.span == span,
            r.hints@ == Seq::<Hints<C, I, X>>::empty(),
    {
        ParserError { code, span, hints: Vec::new() }
    }

    /// With a cause.
    pub fn with_cause(self, err: X) -> (r: Self)
        ensures
            r.code == self.code,
            r.span == self.span,
            r.hints@ == self.hints@.push(Hints::Cause(err)),
    {
        let mut s = self;
        s.hints.push(Hints::Cause(err));
        s
    }

    /// With user data.
    pub fn with_user_data(self, user_data: X) -> (r: Self)
        ensures
            r.code == self.code,
            r.span == self.span,
            r.hints@ == self.hints@.push(Hints::UserData(user_data)),
    {
        let mut s = self;
        s.hints.push(Hints::UserData(user_data));
        s
    }

    /// Finds the first (single) cause.
    pub fn cause(&self) -> (r: Option<&X>)
        ensures
            r matches Some(x) ==> first_cause(self.hints@) == Some(*x),
            r is None ==> first_cause(self.hints@) is None,
    {
        let mut i: usize = 0;
        assert(self.hints@.subrange(0, self.hints@.len() as int) == self.hints@);
        while i < self.hints.len()
            invariant
                0 <= i <= self.hints@.len(),
                first_cause(self.hints@) == first_cause(self.hints@.subrange(i as int, self.hints@.len() as int)),
            decreases self.hints@.len() - i,
        {
            let ghost rest = self.hints@.subrange(i as int, self.hints@.len() as int);
            assert(rest[0] == self.hints@[i as int]);
            assert(rest.drop_first() == self.hints@.subrange(i + 1, self.hints@.len() as int));
            match &self.hints[i] {
                Hints::Cause(e) => {
                    return Some(e);
                },
                _ => {},
            }
            i = i + 1;
        }
        None
    }

    /// Finds the first (single) user data.
    pub fn user_data(&self) -> (r: Option<&X>)
        ensures
            r matches Some(x) ==> first_user_data(self.hints@) == Some(*x),
            r is None ==> first_user_data(self.hints@) is None,
    {
        let mut i: usize = 0;
        assert(self.hints@.subrange(0, self.hints@.len() as int) == self.hints@);
        while i < self.hints.len()
            invariant
                0 <= i <= self.hints@.len(),
                first_user_data(self.hints@) == first_user_data(self.hints@.subrange(i as int, self.hints@.len() as int)),
            decreases self.hints@.len() - i,
        {
            let ghost rest = self.hints@.subrange(i as int, self.hints@.len() as int);
            assert(rest[0] == self.hints@[i as int]);
            assert(rest.drop_first() == self.hints@.subrange(i + 1, self.hints@.len() as int));
            match &self.hints[i] {
                Hints::UserData(e) => {
                    return Some(e);
                },
                _ => {},
            }
            i = i + 1;
        }
        None
    }

    /// Convert to a recoverable `NomErr::Error`.
    pub fn error(self) -> (r: NomErr<Self>)
        ensures
            r == NomErr::Error(self),
    {
        NomErr::Error(self)
    }

    /// Convert to an unrecoverable `NomErr::Failure`.
    pub fn failure(self) -> (r: NomErr<Self>)
        ensures
            r == NomErr::Failure(self),
    {
        NomErr::Failure(self)
    }

    /// Adds information from the other parser error to this one.
    ///
    /// Adds the other's code and span as expected value, unless it is the
    /// generic nom error code, and then all the other's hints.
    pub fn append_err(&mut self, other: ParserError<C, I, X>)
        ensures
            final(self).code == old(self).code,
            final(self).span == old(self).span,
            final(self).hints@ == old(self).hints@ + (if other.code != C::spec_nom_error() {
                seq![Hints::Expect(SpanAndCode { code: other.code, span: other.span })]
            } else {
                Seq::empty()
            }) + other.hints@,
    {
        let mut other = other;
        if !other.code.eq_code(&C::nom_error()) {
            self.expect(other.code, other.span);
        }
        self.hints.append(&mut other.hints);
    }

    /// Convert to a new error code.
    /// If the old one differs, it is added to the expected codes, unless it
    /// is the generic nom error code.
    pub fn with_code(self, code: C) -> (r: Self)
        ensures
            r.code == code,
            r.span == self.span,
            r.hints@ == if self.code != code && self.code != C::spec_nom_error() {
                self.hints@.push(Hints::Expect(SpanAndCode { code: self.code, span: self.span }))
            } else {
                self.hints@
            },
    {
        let mut s = self;
        if !s.code.eq_code(&code) && !s.code.eq_code(&C::nom_error()) {
            let old_code = s.code;
            let old_span = s.span;
            s.hints.push(Hints::Expect(SpanAndCode { code: old_code, span: old_span }));
        }
        s.code = code;
        s
    }

    /// Was this one of the expected errors?
    /// The main error code is one of the tested values.
    pub fn is_expected(&self, code: C) -> (r: bool)
        ensures
            r == (self.code == code || has_code(expects(self.hints@), code)),
    {
        if self.code.eq_code(&code) {
            return true;
        }
        let mut i: usize = 0;
        while i < self.hints.len()
            invariant
                0 <= i <= self.hints@.len(),
                !has_code(expects(self.hints@.subrange(0, i as int)), code),
            decreases self.hints@.len() - i,
        {
            proof {
                assert(self.hints@.subrange(0, i + 1) == self.hints@.subrange(0, i as int).push(self.hints@[i as int]));
                lemma_expects_push(self.hints@.subrange(0, i as int), self.hints@[i as int]);
            }
            match &self.hints[i] {
                Hints::Expect(v) => {
                    if v.code.eq_code(&code) {
                        proof {
                            let e = expects(self.hints@.subrange(0, i + 1));
                            assert(e[e.len() - 1] == *v);
                            lemma_expects_prefix(self.hints@, i + 1);
                            assert(expects(self.hints@)[e.len() - 1] == e[e.len() - 1]);
                        }
                        return true;
                    }
                },
                _ => {},
            }
            i = i + 1;
        }
        proof {
            assert(self.hints@.subrange(0, self.hints@.len() as int) == self.hints@);
        }
        false
    }

    /// Add an expected code.
    pub fn expect(&mut self, code: C, span: I)
        ensures
            final(self).code == old(self).code,
            final(self).span == old(self).span,
            final(self).hints@ == old(self).hints@.push(Hints::Expect(SpanAndCode { code, span })),
    {
        self.hints.push(Hints::Expect(SpanAndCode { code, span }))
    }

    /// Adds some expected codes.
    pub fn append_expected(&mut self, exp: Vec<SpanAndCode<C, I>>)
        ensures
            final(self).code == old(self).code,
            final(self).span == old(self).span,
            final(self).hints@.len() == old(self).hints@.len() + exp@.len(),
            final(self).hints@.subrange(0, old(self).hints@.len() as int) == old(self).hints@,
            forall|i: int| 0 <= i < exp@.len() ==> #[trigger] final(self).hints@[old(self).hints@.len() + i] == Hints::<C, I, X>::Expect(exp@[i]),
    {
        let ghost h0 = self.hints@;
        let mut i: usize = 0;
        while i < exp.len()
            invariant
                0 <= i <= exp@.len(),
                self.code == old(self).code,
                self.span == old(self).span,
                h0 == old(self).hints@,
                self.hints@.len() == h0.len() + i,
                self.hints@.subrange(0, h0.len() as int) == h0,
                forall|j: int| 0 <= j < i ==> #[trigger] self.hints@[h0.len() + j] == Hints::<C, I, X>::Expect(exp@[j]),
            decreases exp@.len() - i,
        {
            self.hints.push(Hints::Expect(exp[i]));
            i = i + 1;
        }
    }

    /// Returns the expected codes, most recent first.
    ///
    /// The main error code is not included here.
    pub fn iter_expected(&self) -> (r: Vec<SpanAndCode<C, I>>)
        ensures
            r@ == expects(self.hints@).reverse(),
    {
        let mut r: Vec<SpanAndCode<C, I>> = Vec::new();
        let mut i: usize = self.hints.len();
        assert(self.hints@.subrange(0, i as int) == self.hints@);
        assert(r@.reverse() == Seq::<SpanAndCode<C, I>>::empty());
        assert(expects(self.hints@) + Seq::<SpanAndCode<C, I>>::empty() == expects(self.hints@));
        while i > 0
            invariant
                0 <= i <= self.hints@.len(),
                r@ == expects(self.hints@).reverse().subrange(0, r@.len() as int),
                expects(self.hints@) == expects(self.hints@.subrange(0, i as int)) + r@.reverse(),
            decreases i,
        {
            let ghost pre = self.hints@.subrange(0, i - 1);
            proof {
                assert(self.hints@.subrange(0, i as int) == pre.push(self.hints@[i - 1]));
                lemma_expects_push(pre, self.hints@[i - 1]);
            }
            match &self.hints[i - 1] {
                Hints::Expect(v) => {
                    let ghost old_r = r@;
                    r.push(*v);
                    proof {
                        assert(r@.reverse() == seq![*v] + old_r.reverse());
                        assert(expects(pre) + seq![*v] + old_r.reverse() == expects(pre) + r@.reverse());
                    }
                },
                _ => {
                    proof {
                        assert(expects(pre) + Seq::<SpanAndCode<C, I>>::empty() == expects(pre));
                    }
                },
            }
            i = i - 1;
            proof {
                lemma_reverse_prefix(expects(self.hints@), expects(self.hints@.subrange(0, i as int)), r@);
            }
        }
        proof {
            assert(self.hints@.subrange(0, 0) == Seq::<Hints<C, I, X>>::empty());
            assert(r@.reverse().reverse() == r@);
            assert(expects(self.hints@) == r@.reverse());
        }
        r
    }

    /// Add a suggested code.
    pub fn suggest(&mut self, code: C, span: I)
        ensures
            final(self).code == old(self).code,
            final(self).span == old(self).span,
            final(self).hints@ == old(self).hints@.push(Hints::Suggest(SpanAndCode { code, span })),
    {
        self.hints.push(Hints::Suggest(SpanAndCode { code, span }))
    }

    /// Was this one of the suggested codes?
    /// The main error code is one of the tested values.
    pub fn is_suggested(&self, code: C) -> (r: bool)
        ensures
            r == (self.code == code || has_code(suggests(self.hints@), code)),
    {
        if self.code.eq_code(&code) {
            return true;
        }
        let mut i: usize = 0;
        while i < self.hints.len()
            invariant
                0 <= i <= self.hints@.len(),
                !has_code(suggests(self.hints@.subrange(0, i as int)), code),
            decreases self.hints@.len() - i,
        {
            proof {
                assert(self.hints@.subrange(0, i + 1) == self.hints@.subrange(0, i as int).push(self.hints@[i as int]));
                lemma_expects_push(self.hints@.subrange(0, i as int), self.hints@[i as int]);
            }
            match &self.hints[i] {
                Hints::Suggest(v) => {
                    if v.code.eq_code(&code) {
                        proof {
                            let e = suggests(self.hints@.subrange(0, i + 1));
                            assert(e[e.len() - 1] == *v);
                            lemma_expects_prefix(self.hints@, i + 1);
                            assert(suggests(self.hints@)[e.len() - 1] == e[e.len() - 1]);
                        }
                        return true;
                    }
                },
                _ => {},
            }
            i = i + 1;
        }
        proof {
            assert(self.hints@.subrange(0, self.hints@.len() as int) == self.hints@);
        }
        false
    }

    /// Adds some suggested codes.
    pub fn append_suggested(&mut self, exp: Vec<SpanAndCode<C, I>>)
        ensures
            final(self).code == old(self).code,
            final(self).span == old(self).span,
            final(self).hints@.len() == old(self).hints@.len() + exp@.len(),
            final(self).hints@.subrange(0, old(self).hints@.len() as int) == old(self).hints@,
            forall|i: int| 0 <= i < exp@.len() ==> #[trigger] final(self).hints@[old(self).hints@.len() + i] == Hints::<C, I, X>::Suggest(exp@[i]),
    {
        let ghost h0 = self.hints@;
        let mut i: usize = 0;
        while i < exp.len()
            invariant
                0 <= i <= exp@.len(),
                self.code == old(self).code,
                self.span == old(self).span,
                h0 == old(self).hints@,
                self.hints@.len() == h0.len() + i,
                self.hints@.subrange(0, h0.len() as int) == h0,
                forall|j: int| 0 <= j < i ==> #[trigger] self.hints@[h0.len() + j] == Hints::<C, I, X>::Suggest(exp@[j]),
            decreases exp@.len() - i,
        {
            self.hints.push(Hints::Suggest(exp[i]));
            i = i + 1;
        }
    }

    /// Returns the suggested codes, most recent first.
    pub fn iter_suggested(&self) -> (r: Vec<SpanAndCode<C, I>>)
        ensures
            r@ == suggests(self.hints@).reverse(),
    {
        let mut r: Vec<SpanAndCode<C, I>> = Vec::new();
        let mut i: usize = self.hints.len();
        assert(self.hints@.subrange(0, i as int) == self.hints@);
        assert(r@.reverse() == Seq::<SpanAndCode<C, I>>::empty());
        assert(suggests(self.hints@) + Seq::<SpanAndCode<C, I>>::empty() == suggests(self.hints@));
        while i > 0
            invariant
                0 <= i <= self.hints@.len(),
                r@ == suggests(self.hints@).reverse().subrange(0, r@.len() as int),
                suggests(self.hints@) == suggests(self.hints@.subrange(0, i as int)) + r@.reverse(),
            decreases i,
        {
            let ghost pre = self.hints@.subrange(0, i - 1);
            proof {
                assert(self.hints@.subrange(0, i as int) == pre.push(self.hints@[i - 1]));
                lemma_expects_push(pre, self.hints@[i - 1]);
            }
            match &self.hints[i - 1] {
                Hints::Suggest(v) => {
                    let ghost old_r = r@;
                    r.push(*v);
                    proof {
                        assert(r@.reverse() == seq![*v] + old_r.reverse());
                        assert(suggests(pre) + seq![*v] + old_r.reverse() == suggests(pre) + r@.reverse());
                    }
                },
                _ => {
                    proof {
                        assert(suggests(pre) + Seq::<SpanAndCode<C, I>>::empty() == suggests(pre));
                    }
                },
            }
            i = i - 1;
            proof {
                lemma_reverse_prefix(suggests(self.hints@), suggests(self.hints@.subrange(0, i as int)), r@);
            }
        }
        proof {
            assert(self.hints@.subrange(0, 0) == Seq::<Hints<C, I, X>>::empty());
            assert(r@.reverse().reverse() == r@);
            assert(suggests(self.hints@) == r@.reverse());
        }
        r
    }
}

impl<C: Code, I: Copy, X> ErrOrNomErr for ParserError<C, I, X> {
    type WrappedError = ParserError<C, I, X>;

    open spec fn wrapped(self) -> NomErr<Self::WrappedError> {
        NomErr::Error(self)
    }

    fn wrap(self) -> (r: NomErr<Self::WrappedError>) {
        NomErr::Error(self)
    }
}

impl<C: Code, I: Copy, X> ErrOrNomErr for NomErr<ParserError<C, I, X>> {
    type WrappedError = ParserError<C, I, X>;

    open spec fn wrapped(self) -> NomErr<Self::WrappedError> {
        self
    }

    fn wrap(self) -> (r: NomErr<Self::WrappedError>) {
        self
    }
}

/// `e` is `p` with the error code changed as `ParserError::with_code` does.
pub open spec fn recoded<C: Code, I, X>(p: ParserError<C, I, X>, code: C, e: ParserError<C, I, X>) -> bool {
    &&& e.code == code
    &&& e.span == p.span
    &&& e.hints@ == if p.code != code && p.code != C::spec_nom_error() {
        p.hints@.push(Hints::Expect(SpanAndCode { code: p.code, span: p.span }))
    } else {
        p.hints@
    }
}

impl<C: Code, I: Copy + std::fmt::Debug, X: std::fmt::Debug> KParseError<C, I> for ParserError<C, I, X> {
    type WrappedError = ParserError<C, I, X>;

    open spec fn spec_code(&self) -> Option<C> {
        Some(self.code)
    }

    open spec fn spec_span(&self) -> Option<I> {
        Some(self.span)
    }

    open spec fn is_from(&self, code: C, span: I) -> bool {
        self.code == code && self.span == span && self.hints@ == Seq::<Hints<C, I, X>>::empty()
    }

    fn from(code: C, span: I) -> (r: Self) {
        ParserError::new(code, span)
    }

    fn with_code(self, code: C) -> (r: Self)
        ensures
            recoded(self, code, r),
    {
        ParserError::with_code(self, code)
    }

    fn code(&self) -> (r: Option<C>) {
        Some(self.code)
    }

    fn span(&self) -> (r: Option<I>) {
        Some(self.span)
    }

    fn err(&self) -> (r: Option<&Self::WrappedError>)
        ensures
            r == Some(self),
    {
        Some(self)
    }

    fn parts(&self) -> (r: Option<(C, I, &Self::WrappedError)>)
        ensures
            r == Some((self.code, self.span, self)),
    {
        Some((self.code, self.span, self))
    }
}

/// The error inside a `NomErr`, `None` for an incomplete parse.
pub open spec fn nom_err_inner<E>(e: NomErr<E>) -> Option<E> {
    match e {
        NomErr::Incomplete(_) => None,
        NomErr::Error(e) => Some(e),
        NomErr::Failure(e) => Some(e),
    }
}

impl<C: Code, I: Copy + std::fmt::Debug, X: std::fmt::Debug> KParseError<C, I> for NomErr<ParserError<C, I, X>> {
    type WrappedError = ParserError<C, I, X>;

    open spec fn spec_code(&self) -> Option<C> {
        match nom_err_inner(*self) {
            Some(e) => Some(e.code),
            None => None,
        }
    }

    open spec fn spec_span(&self) -> Option<I> {
        match nom_err_inner(*self) {
            Some(e) => Some(e.span),
            None => None,
        }
    }

    open spec fn is_from(&self, code: C, span: I) -> bool {
        *self matches NomErr::Error(e) && e.is_from(code, span)
    }

    fn from(code: C, span: I) -> (r: Self) {
        NomErr::Error(ParserError::new(code, span))
    }

    /// Changes the code of the wrapped error, keeping its kind.
    fn with_code(self, code: C) -> (r: Self)
        ensures
            match self {
                NomErr::Incomplete(n) => r == NomErr::<ParserError<C, I, X>>::Incomplete(n),
                NomErr::Error(p) => (r matches NomErr::Error(e) && recoded(p, code, e)),
                NomErr::Failure(p) => (r matches NomErr::Failure(e) && recoded(p, code, e)),
            },
    {
        match self {
            NomErr::Incomplete(n) => NomErr::Incomplete(n),
            NomErr::Error(e) => NomErr::Error(e.with_code(code)),
            NomErr::Failure(e) => NomErr::Failure(e.with_code(code)),
        }
    }

    fn code(&self) -> (r: Option<C>) {
        match self {
            NomErr::Incomplete(_) => None,
            NomErr::Error(e) => Some(e.code),
            NomErr::Failure(e) => Some(e.code),
        }
    }

    fn span(&self) -> (r: Option<I>) {
        match self {
            NomErr::Incomplete(_) => None,
            NomErr::Error(e) => Some(e.span),
            NomErr::Failure(e) => Some(e.span),
        }
    }

    fn err(&self) -> (r: Option<&Self::WrappedError>)
        ensures
            match self {
                NomErr::Incomplete(_) => r is None,
                NomErr::Error(e) => r == Some(e),
                NomErr::Failure(e) => r == Some(e),
            },
    {
        match self {
            NomErr::Incomplete(_) => None,
            NomErr::Error(e) => Some(e),
            NomErr::Failure(e) => Some(e),
        }
    }

    fn parts(&self) -> (r: Option<(C, I, &Self::WrappedError)>)
        ensures
            match self {
                NomErr::Incomplete(_) => r is None,
                NomErr::Error(e) => r == Some((e.code, e.span, e)),
                NomErr::Failure(e) => r == Some((e.code, e.span, e)),
            },
    {
        match self {
            NomErr::Incomplete(_) => None,
            NomErr::Error(e) => Some((e.code, e.span, e)),
            NomErr::Failure(e) => Some((e.code, e.span, e)),
        }
    }
}

impl<C: Code, I: Copy + std::fmt::Debug, O, X: std::fmt::Debug> KParseError<C, I> for Result<(I, O), NomErr<ParserError<C, I, X>>> {
    type WrappedError = ParserError<C, I, X>;

    open spec fn spec_code(&self) -> Option<C> {
        match self {
            Ok(_) => None,
            Err(e) => e.spec_code(),
        }
    }

    open spec fn spec_span(&self) -> Option<I> {
        match self {
            Ok(_) => None,
            Err(e) => e.spec_span(),
        }
    }

    open spec fn is_from(&self, code: C, span: I) -> bool {
        *self matches Err(NomErr::Error(e)) && e.is_from(code, span)
    }

    fn from(code: C, span: I) -> (r: Self) {
        Err(NomErr::Error(ParserError::new(code, span)))
    }

    /// Changes the error code. A failure becomes a recoverable error.
    fn with_code(self, code: C) -> (r: Self)
        ensures
            match self {
                Ok(v) => r == Ok::<(I, O), NomErr<ParserError<C, I, X>>>(v),
                Err(NomErr::Incomplete(n)) => r == Err::<(I, O), NomErr<ParserError<C, I, X>>>(NomErr::Incomplete(n)),
                Err(NomErr::Error(p)) => (r matches Err(NomErr::Error(e)) && recoded(p, code, e)),
                Err(NomErr::Failure(p)) => (r matches Err(NomErr::Error(e)) && recoded(p, code, e)),
            },
    {
        match self {
            Ok((rest, token)) => Ok((rest, token)),
            Err(NomErr::Error(e)) => Err(NomErr::Error(e.with_code(code))),
            Err(NomErr::Failure(e)) => Err(NomErr::Error(e.with_code(code))),
            Err(NomErr::Incomplete(e)) => Err(NomErr::Incomplete(e)),
        }
    }

    fn code(&self) -> (r: Option<C>) {
        match self {
            Ok(_) => None,
            Err(NomErr::Error(e)) => Some(e.code),
            Err(NomErr::Failure(e)) => Some(e.code),
            Err(NomErr::Incomplete(_)) => None,
        }
    }

    fn span(&self) -> (r: Option<I>) {
        match self {
            Ok(_) => None,
            Err(NomErr::Error(e)) => Some(e.span),
            Err(NomErr::Failure(e)) => Some(e.span),
            Err(NomErr::Incomplete(_)) => None,
        }
    }

    fn err(&self) -> (r: Option<&Self::WrappedError>)
        ensures
            match self {
                Err(NomErr::Error(e)) => r == Some(e),
                Err(NomErr::Failure(e)) => r == Some(e),
                _ => r is None,
            },
    {
        match self {
            Ok(_) => None,
            Err(NomErr::Error(e)) => Some(e),
            Err(NomErr::Failure(e)) => Some(e),
            Err(NomErr::Incomplete(_)) => None,
        }
    }

    fn parts(&self) -> (r: Option<(C, I, &Self::WrappedError)>)
        ensures
            match self {
                Err(NomErr::Error(e)) => r == Some((e.code, e.span, e)),
                Err(NomErr::Failure(e)) => r == Some((e.code, e.span, e)),
                _ => r is None,
            },
    {
        match self {
            Ok(_) => None,
            Err(NomErr::Error(e)) => Some((e.code, e.span, e)),
            Err(NomErr::Failure(e)) => Some((e.code, e.span, e)),
            Err(NomErr::Incomplete(_)) => None,
        }
    }
}

/// Combines two parser errors in the way of an alternative: the other
/// error is appended to this one.
pub fn or<C: Code, I: Copy, X>(e: ParserError<C, I, X>, other: ParserError<C, I, X>) -> (r: ParserError<C, I, X>)
    ensures
        appended(e, r, other),
{
    let mut e = e;
    e.append_err(other);
    e
}

/// The expected codes of a prefix are a prefix of the expected codes.
proof fn lemma_expects_prefix<C, I, X>(h: Seq<Hints<C, I, X>>, k: int)
    requires
        0 <= k <= h.len(),
    ensures
        expects(h) == expects(h.subrange(0, k)) + expects(h.subrange(k, h.len() as int)),
        suggests(h) == suggests(h.subrange(0, k)) + suggests(h.subrange(k, h.len() as int)),
{
    lemma_expects_append(h.subrange(0, k), h.subrange(k, h.len() as int));
    assert(h.subrange(0, k) + h.subrange(k, h.len() as int) == h);
}

/// Reversal and prefixes.
proof fn lemma_reverse_prefix<T>(all: Seq<T>, pre: Seq<T>, r: Seq<T>)
    requires
        all == pre + r.reverse(),
    ensures
        r == all.reverse().subrange(0, r.len() as int),
{
    assert forall|j: int| 0 <= j < r.len() implies r[j] == all.reverse()[j] by {
        assert(all.reverse()[j] == all[all.len() - 1 - j]);
        assert(all[all.len() - 1 - j] == r.reverse()[r.len() - 1 - j]);
    }
    assert(r == all.reverse().subrange(0, r.len() as int));
}


/// `new` is `old` with the other error `err` appended (see
/// `ParserError::append_err`).
pub open spec fn appended<C: Code, I, X>(old: ParserError<C, I, X>, new: ParserError<C, I, X>, err: ParserError<C, I, X>) -> bool {
    &&& new.code == old.code
    &&& new.span == old.span
    &&& new.hints@ == old.hints@ + (if err.code != C::spec_nom_error() {
        seq![Hints::Expect(SpanAndCode { code: err.code, span: err.span })]
    } else {
        Seq::empty()
    }) + err.hints@
}

/// Combines two ParserErrors.
pub trait AppendParserError<Rhs = Self>: Sized {
    /// Result of the append. Usually (), but for an incomplete parse the
    /// error is not appended but passed through.
    type Output;

    /// `new` and `out` are the outcome of appending `err` to `old`.
    spec fn append_spec(old: Self, new: Self, err: Rhs, out: Self::Output) -> bool;

    /// Appends.
    fn append(&mut self, err: Rhs) -> (r: Self::Output)
        ensures
            Self::append_spec(*old(self), *final(self), err, r),
    ;
}

impl<C: Code, I: Copy, X> AppendParserError<ParserError<C, I, X>> for ParserError<C, I, X> {
    type Output = ();

    open spec fn append_spec(old: Self, new: Self, err: ParserError<C, I, X>, out: ()) -> bool {
        appended(old, new, err)
    }

    fn append(&mut self, err: ParserError<C, I, X>) {
        self.append_err(err);
    }
}

impl<C: Code, I: Copy, X> AppendParserError<ParserError<C, I, X>> for Option<ParserError<C, I, X>> {
    type Output = ();

    /// Nothing yet: the error is taken; else it is appended.
    open spec fn append_spec(old: Self, new: Self, err: ParserError<C, I, X>, out: ()) -> bool {
        match old {
            None => new == Some(err),
            Some(o) => (new matches Some(n) && appended(o, n, err)),
        }
    }

    fn append(&mut self, err: ParserError<C, I, X>) {
        match self {
            None => *self = Some(err),
            Some(self_err) => self_err.append_err(err),
        }
    }
}

impl<C: Code, I: Copy, X> AppendParserError<NomErr<ParserError<C, I, X>>> for Option<ParserError<C, I, X>> {
    type Output = Result<(), NomErr<ParserError<C, I, X>>>;

    /// An incomplete parse is passed through; otherwise the error is taken
    /// or appended.
    open spec fn append_spec(old: Self, new: Self, err: NomErr<ParserError<C, I, X>>, out: Self::Output) -> bool {
        match err {
            NomErr::Incomplete(n) => new == old && out == Err::<(), NomErr<ParserError<C, I, X>>>(NomErr::Incomplete(n)),
            NomErr::Error(e) | NomErr::Failure(e) => out is Ok && match old {
                None => new == Some(e),
                Some(o) => (new matches Some(n) && appended(o, n, e)),
            },
        }
    }

    fn append(&mut self, err: NomErr<ParserError<C, I, X>>) -> (r: Result<(), NomErr<ParserError<C, I, X>>>) {
        match self {
            None => match err {
                NomErr::Incomplete(e) => return Err(NomErr::Incomplete(e)),
                NomErr::Error(e) => *self = Some(e),
                NomErr::Failure(e) => *self = Some(e),
            },
            Some(self_err) => match err {
                NomErr::Incomplete(e) => return Err(NomErr::Incomplete(e)),
                NomErr::Error(e) => self_err.append_err(e),
                NomErr::Failure(e) => self_err.append_err(e),
            },
        };
        Ok(())
    }
}

impl<C: Code, I: Copy, X> AppendParserError<ParserError<C, I, X>> for NomErr<ParserError<C, I, X>> {
    type Output = Result<(), NomErr<ParserError<C, I, X>>>;

    /// An incomplete parse is passed through; otherwise the error is
    /// appended to the wrapped one.
    open spec fn append_spec(old: Self, new: Self, err: ParserError<C, I, X>, out: Self::Output) -> bool {
        match old {
            NomErr::Incomplete(n) => new == old && out == Err::<(), NomErr<ParserError<C, I, X>>>(NomErr::Incomplete(n)),
            NomErr::Error(o) => out is Ok && (new matches NomErr::Error(n) && appended(o, n, err)),
            NomErr::Failure(o) => out is Ok && (new matches NomErr::Failure(n) && appended(o, n, err)),
        }
    }

    fn append(&mut self, err: ParserError<C, I, X>) -> (r: Result<(), NomErr<ParserError<C, I, X>>>) {
        match self {
            NomErr::Incomplete(e) => return Err(NomErr::Incomplete(*e)),
            NomErr::Error(e) => e.append_err(err),
            NomErr::Failure(e) => e.append_err(err),
        }
        Ok(())
    }
}

impl<C: Code, I: Copy, X> AppendParserError<NomErr<ParserError<C, I, X>>> for ParserError<C, I, X> {
    type Output = Result<(), NomErr<ParserError<C, I, X>>>;

    /// An incomplete parse is passed through; otherwise the error is
    /// appended.
    open spec fn append_spec(old: Self, new: Self, err: NomErr<ParserError<C, I, X>>, out: Self::Output) -> bool {
        match err {
            NomErr::Incomplete(n) => new == old && out == Err::<(), NomErr<ParserError<C, I, X>>>(NomErr::Incomplete(n)),
            NomErr::Error(e) | NomErr::Failure(e) => out is Ok && appended(old, new, e),
        }
    }

    fn append(&mut self, err: NomErr<ParserError<C, I, X>>) -> (r: Result<(), NomErr<ParserError<C, I, X>>>) {
        match err {
            NomErr::Incomplete(e) => return Err(NomErr::Incomplete(e)),
            NomErr::Error(e) => self.append_err(e),
            NomErr::Failure(e) => self.append_err(e),
        }
        Ok(())
    }
}

impl<C: Code, I: Copy, X> AppendParserError<NomErr<ParserError<C, I, X>>> for NomErr<ParserError<C, I, X>> {
    type Output = Result<(), NomErr<ParserError<C, I, X>>>;

    /// An incomplete parse on either side is passed through; otherwise the
    /// errors are combined.
    open spec fn append_spec(old: Self, new: Self, err: NomErr<ParserError<C, I, X>>, out: Self::Output) -> bool {
        match old {
            NomErr::Incomplete(n) => new == old && out == Err::<(), NomErr<ParserError<C, I, X>>>(NomErr::Incomplete(n)),
            NomErr::Error(o) | NomErr::Failure(o) => match err {
                NomErr::Incomplete(_) => new == old && out == Err::<(), NomErr<ParserError<C, I, X>>>(err),
                NomErr::Error(e) | NomErr::Failure(e) => out is Ok && match old {
                    NomErr::Error(_) => (new matches NomErr::Error(n) && appended(o, n, e)),
                    _ => (new matches NomErr::Failure(n) && appended(o, n, e)),
                },
            },
        }
    }

    fn append(&mut self, err: NomErr<ParserError<C, I, X>>) -> (r: Result<(), NomErr<ParserError<C, I, X>>>) {
        match self {
            NomErr::Incomplete(e) => return Err(NomErr::Incomplete(*e)),
            NomErr::Error(e) => match err {
                NomErr::Incomplete(_) => return Err(err),
                NomErr::Error(e2) => e.append_err(e2),
                NomErr::Failure(e2) => e.append_err(e2),
            },
            NomErr::Failure(e) => match err {
                NomErr::Incomplete(_) => return Err(err),
                NomErr::Error(e2) => e.append_err(e2),
                NomErr::Failure(e2) => e.append_err(e2),
            },
        }
        Ok(())
    }
}

/// Appending an error keeps every expected code, adds the other error's
/// code as expected unless it is the generic nom error code, and then the
/// other error's expected codes, in this order.
pub proof fn law_append_expected<C: Code, I, X>(old: ParserError<C, I, X>, new: ParserError<C, I, X>, err: ParserError<C, I, X>)
    requires
        appended(old, new, err),
    ensures
        expects(new.hints@) == expects(old.hints@) + (if err.code != C::spec_nom_error() {
            seq![SpanAndCode { code: err.code, span: err.span }]
        } else {
            Seq::empty()
        }) + expects(err.hints@),
        err.code != C::spec_nom_error() ==> has_code(expects(new.hints@), err.code),
        forall|c: C| has_code(expects(old.hints@), c) ==> has_code(expects(new.hints@), c),
        forall|c: C| has_code(expects(err.hints@), c) ==> has_code(expects(new.hints@), c),
{
    let mid: Seq<Hints<C, I, X>> = if err.code != C::spec_nom_error() {
        seq![Hints::Expect(SpanAndCode { code: err.code, span: err.span })]
    } else {
        Seq::empty()
    };
    lemma_expects_append(old.hints@ + mid, err.hints@);
    lemma_expects_append(old.hints@, mid);
    if err.code != C::spec_nom_error() {
        lemma_expects_push(Seq::<Hints<C, I, X>>::empty(), Hints::Expect(SpanAndCode { code: err.code, span: err.span }));
        assert(Seq::<Hints<C, I, X>>::empty().push(Hints::Expect(SpanAndCode { code: err.code, span: err.span })) == mid);
        assert(expects(Seq::<Hints<C, I, X>>::empty()) == Seq::<SpanAndCode<C, I>>::empty());
        assert(expects(mid) == seq![SpanAndCode { code: err.code, span: err.span }]);
    } else {
        assert(expects(mid) == Seq::<SpanAndCode<C, I>>::empty());
    }
    let e_old = expects(old.hints@);
    let e_mid = expects(mid);
    let e_err = expects(err.hints@);
    let all = expects(new.hints@);
    assert(all == e_old + e_mid + e_err);
    if err.code != C::spec_nom_error() {
        assert(all[e_old.len() as int] == SpanAndCode { code: err.code, span: err.span });
    }
    assert forall|c: C| has_code(e_old, c) implies has_code(all, c) by {
        let i = choose|i: int| 0 <= i < e_old.len() && (#[trigger] e_old[i]).code == c;
        assert(all[i] == e_old[i]);
    }
    assert forall|c: C| has_code(e_err, c) implies has_code(all, c) by {
        let i = choose|i: int| 0 <= i < e_err.len() && (#[trigger] e_err[i]).code == c;
        assert(all[e_old.len() + e_mid.len() + i] == e_err[i]);
    }
}

/// Changing the code keeps the old code as an expected code, unless it is
/// the same code or the generic nom error code, and keeps every expected
/// code.
pub proof fn law_with_code_keeps_old<C: Code, I, X>(p: ParserError<C, I, X>, code: C, e: ParserError<C, I, X>)
    requires
        recoded(p, code, e),
    ensures
        e.code == code,
        p.code != C::spec_nom_error() ==> (e.code == p.code || has_code(expects(e.hints@), p.code)),
        forall|c: C| has_code(expects(p.hints@), c) ==> has_code(expects(e.hints@), c),
{
    if p.code != code && p.code != C::spec_nom_error() {
        let x = Hints::Expect(SpanAndCode { code: p.code, span: p.span });
        lemma_expects_push(p.hints@, x);
        let all = expects(e.hints@);
        assert(all == expects(p.hints@).push(SpanAndCode { code: p.code, span: p.span }));
        assert(all[all.len() - 1] == SpanAndCode { code: p.code, span: p.span });
        assert forall|c: C| has_code(expects(p.hints@), c) implies has_code(all, c) by {
            let i = choose|i: int| 0 <= i < expects(p.hints@).len() && (#[trigger] expects(p.hints@)[i]).code == c;
            assert(all[i] == expects(p.hints@)[i]);
        }
    }
}

/// The key by which expected or suggested codes are grouped: the offset of
/// the span, or its line.
pub open spec fn entry_key<'s, C>(e: SpanAndCode<C, Span<'s>>, by_line: bool) -> int {
    if by_line {
        e.span.line() as int
    } else {
        e.span.start()
    }
}

/// The entries of `list` with the key `k`, in order.
pub open spec fn entries_with_key<'s, C>(list: Seq<SpanAndCode<C, Span<'s>>>, by_line: bool, k: int) -> Seq<SpanAndCode<C, Span<'s>>>
    decreases list.len(),
{
    if list.len() == 0 {
        Seq::empty()
    } else {
        let sub = entries_with_key(list.drop_last(), by_line, k);
        if entry_key(list.last(), by_line) == k {
            sub.push(list.last())
        } else {
            sub
        }
    }
}

/// `groups` holds the entries of `list` grouped by their key: one group per
/// key that occurs, keys descending, and each group the entries with its key
/// in their order in `list`.
pub open spec fn grouped_by_key<'s, C>(list: Seq<SpanAndCode<C, Span<'s>>>, by_line: bool, groups: Seq<(int, Seq<SpanAndCode<C, Span<'s>>>)>) -> bool {
    &&& forall|i: int, j: int| 0 <= i < j < groups.len() ==> groups[i].0 > groups[j].0
    &&& forall|i: int| 0 <= i < groups.len() ==> #[trigger] groups[i].1 == entries_with_key(list, by_line, groups[i].0) && groups[i].1.len() > 0
    &&& forall|n: int| 0 <= n < list.len() ==> has_group(groups, entry_key(#[trigger] list[n], by_line))
}

/// Some group has the key `k`.
pub open spec fn has_group<'s, C>(groups: Seq<(int, Seq<SpanAndCode<C, Span<'s>>>)>, k: int) -> bool {
    exists|i: int| 0 <= i < groups.len() && groups[i].0 == k
}

/// The groups with their keys as integers.
pub open spec fn groups_view<'s, C, K: Integer>(g: Seq<(K, Vec<SpanAndCode<C, Span<'s>>>)>) -> Seq<(int, Seq<SpanAndCode<C, Span<'s>>>)> {
    Seq::new(g.len(), |i: int| (g[i].0 as int, g[i].1@))
}

/// An entry with the key makes its group non-empty.
proof fn lemma_entries_nonempty<'s, C>(list: Seq<SpanAndCode<C, Span<'s>>>, by_line: bool, k: int, n: int)
    requires
        0 <= n < list.len(),
        entry_key(list[n], by_line) == k,
    ensures
        entries_with_key(list, by_line, k).len() > 0,
    decreases list.len(),
{
    if n < list.len() - 1 {
        lemma_entries_nonempty(list.drop_last(), by_line, k, n);
        assert(list.drop_last()[n] == list[n]);
    }
}

/// The key of an entry.
fn key_of<'s, C: Copy>(e: &SpanAndCode<C, Span<'s>>, by_line: bool) -> (r: usize)
    ensures
        r == entry_key(*e, by_line),
{
    if by_line {
        e.span.location_line() as usize
    } else {
        e.span.location_offset()
    }
}

/// The entries with the key `k`.
fn filter_key<'s, C: Copy>(list: &Vec<SpanAndCode<C, Span<'s>>>, by_line: bool, k: usize) -> (r: Vec<SpanAndCode<C, Span<'s>>>)
    ensures
        r@ == entries_with_key(list@, by_line, k as int),
{
    let mut r: Vec<SpanAndCode<C, Span<'s>>> = Vec::new();
    let mut i: usize = 0;
    while i < list.len()
        invariant
            0 <= i <= list@.len(),
            r@ == entries_with_key(list@.subrange(0, i as int), by_line, k as int),
        decreases list@.len() - i,
    {
        proof {
            assert(list@.subrange(0, i + 1).drop_last() == list@.subrange(0, i as int));
            assert(list@.subrange(0, i + 1).last() == list@[i as int]);
        }
        if key_of(&list[i], by_line) == k {
            r.push(list[i]);
        }
        i = i + 1;
    }
    proof {
        assert(list@.subrange(0, list@.len() as int) == list@);
    }
    r
}

/// The key lies below the bound; no bound is above every key.
pub open spec fn below(key: int, bound: Option<usize>) -> bool {
    match bound {
        None => true,
        Some(b) => key < b,
    }
}

/// The largest key below the bound, if any entry has one.
fn max_key_below<'s, C: Copy>(list: &Vec<SpanAndCode<C, Span<'s>>>, by_line: bool, bound: Option<usize>) -> (r: Option<usize>)
    ensures
        r is None ==> forall|n: int| 0 <= n < list@.len() ==> !below(entry_key(#[trigger] list@[n], by_line), bound),
        r matches Some(k) ==> below(k as int, bound)
            && (exists|n: int| 0 <= n < list@.len() && entry_key(#[trigger] list@[n], by_line) == k)
            && forall|n: int| 0 <= n < list@.len() && below(entry_key(#[trigger] list@[n], by_line), bound) ==> entry_key(list@[n], by_line) <= k,
{
    let mut best: Option<usize> = None;
    let mut i: usize = 0;
    while i < list.len()
        invariant
            0 <= i <= list@.len(),
            best is None ==> forall|n: int| 0 <= n < i ==> !below(entry_key(#[trigger] list@[n], by_line), bound),
            best matches Some(k) ==> below(k as int, bound)
                && (exists|n: int| 0 <= n < i && entry_key(#[trigger] list@[n], by_line) == k)
                && forall|n: int| 0 <= n < i && below(entry_key(#[trigger] list@[n], by_line), bound) ==> entry_key(list@[n], by_line) <= k,
        decreases list@.len() - i,
    {
        let k = key_of(&list[i], by_line);
        let is_below = match bound {
            None => true,
            Some(b) => k < b,
        };
        if is_below {
            let better = match best {
                None => true,
                Some(b) => k > b,
            };
            if better {
                best = Some(k);
                assert(entry_key(list@[i as int], by_line) == k);
            }
        }
        i = i + 1;
    }
    best
}

/// Groups the entries by their key, keys descending.
fn group_by_key<'s, C: Copy>(list: &Vec<SpanAndCode<C, Span<'s>>>, by_line: bool) -> (r: Vec<(usize, Vec<SpanAndCode<C, Span<'s>>>)>)
    ensures
        grouped_by_key(list@, by_line, groups_view(r@)),
{
    let mut groups: Vec<(usize, Vec<SpanAndCode<C, Span<'s>>>)> = Vec::new();
    let mut bound: Option<usize> = None;
    loop
        invariant
            forall|i: int, j: int| 0 <= i < j < groups@.len() ==> groups@[i].0 > groups@[j].0,
            forall|i: int| 0 <= i < groups@.len() ==> #[trigger] groups@[i].1@ == entries_with_key(list@, by_line, groups@[i].0 as int)
                && groups@[i].1@.len() > 0,
            bound is None <==> groups@.len() == 0,
            bound matches Some(b) ==> b == groups@.last().0,
            forall|n: int| 0 <= n < list@.len() && !below(entry_key(#[trigger] list@[n], by_line), bound)
                ==> exists|i: int| 0 <= i < groups@.len() && groups@[i].0 == entry_key(list@[n], by_line),
        ensures
            forall|i: int, j: int| 0 <= i < j < groups@.len() ==> groups@[i].0 > groups@[j].0,
            forall|i: int| 0 <= i < groups@.len() ==> #[trigger] groups@[i].1@ == entries_with_key(list@, by_line, groups@[i].0 as int)
                && groups@[i].1@.len() > 0,
            forall|n: int| 0 <= n < list@.len()
                ==> exists|i: int| 0 <= i < groups@.len() && groups@[i].0 == entry_key(#[trigger] list@[n], by_line),
        decreases (match bound { None => usize::MAX + 1, Some(b) => b as int }),
    {
        let next = max_key_below(list, by_line, bound);
        match next {
            None => {
                break;
            },
            Some(k) => {
                let sub = filter_key(list, by_line, k);
                proof {
                    let n = choose|n: int| 0 <= n < list@.len() && entry_key(#[trigger] list@[n], by_line) == k;
                    lemma_entries_nonempty(list@, by_line, k as int, n);
                }
                let ghost old_groups = groups@;
                groups.push((k, sub));
                proof {
                    assert forall|n: int| 0 <= n < list@.len() && !below(entry_key(#[trigger] list@[n], by_line), Some(k))
                        implies exists|i: int| 0 <= i < groups@.len() && groups@[i].0 == entry_key(list@[n], by_line) by {
                        if below(entry_key(list@[n], by_line), bound) {
                            assert(groups@[groups@.len() - 1].0 == entry_key(list@[n], by_line));
                        } else {
                            let i = choose|i: int| 0 <= i < old_groups.len() && old_groups[i].0 == entry_key(list@[n], by_line);
                            assert(groups@[i] == old_groups[i]);
                        }
                    }
                    assert forall|i: int| 0 <= i < groups@.len() implies #[trigger] groups@[i].1@ == entries_with_key(list@, by_line, groups@[i].0 as int)
                        && groups@[i].1@.len() > 0 by {
                        if i < old_groups.len() {
                            assert(groups@[i] == old_groups[i]);
                        }
                    }
                    assert forall|i: int, j: int| 0 <= i < j < groups@.len() implies groups@[i].0 > groups@[j].0 by {
                        if j < old_groups.len() {
                            assert(groups@[i] == old_groups[i]);
                            assert(groups@[j] == old_groups[j]);
                        } else if i < old_groups.len() {
                            assert(groups@[i] == old_groups[i]);
                            if old_groups.len() > 0 {
                                assert(old_groups[i].0 >= old_groups.last().0);
                            }
                        }
                    }
                }
                bound = Some(k);
            },
        }
    }
    proof {
        let gv = groups_view(groups@);
        assert forall|i: int| 0 <= i < gv.len() implies #[trigger] gv[i].1 == entries_with_key(list@, by_line, gv[i].0) && gv[i].1.len() > 0 by {
            assert(gv[i] == (groups@[i].0 as int, groups@[i].1@));
        }
        assert forall|n: int| 0 <= n < list@.len() implies has_group(gv, entry_key(#[trigger] list@[n], by_line)) by {
            let i = choose|i: int| 0 <= i < groups@.len() && groups@[i].0 == entry_key(list@[n], by_line);
            assert(gv[i].0 == groups@[i].0 as int);
        }
        assert forall|i: int, j: int| 0 <= i < j < gv.len() implies gv[i].0 > gv[j].0 by {
            assert(gv[i].0 == groups@[i].0 as int);
            assert(gv[j].0 == groups@[j].0 as int);
        }
        assert(grouped_by_key(list@, by_line, gv));
    }
    groups
}

/// Every entry with the key `k` has that key.
proof fn lemma_entries_keys<'s, C>(list: Seq<SpanAndCode<C, Span<'s>>>, by_line: bool, k: int)
    ensures
        forall|j: int| 0 <= j < entries_with_key(list, by_line, k).len() ==> entry_key(#[trigger] entries_with_key(list, by_line, k)[j], by_line) == k,
    decreases list.len(),
{
    if list.len() > 0 {
        lemma_entries_keys(list.drop_last(), by_line, k);
        let sub = entries_with_key(list.drop_last(), by_line, k);
        let all = entries_with_key(list, by_line, k);
        assert forall|j: int| 0 <= j < all.len() implies entry_key(#[trigger] all[j], by_line) == k by {
            if j < sub.len() {
                assert(all[j] == sub[j]);
            }
        }
    }
}

/// A copy of the entries.
fn copy_entries<'s, C: Copy>(v: &Vec<SpanAndCode<C, Span<'s>>>) -> (r: Vec<SpanAndCode<C, Span<'s>>>)
    ensures
        r@ == v@,
{
    let mut r: Vec<SpanAndCode<C, Span<'s>>> = Vec::new();
    let mut i: usize = 0;
    while i < v.len()
        invariant
            0 <= i <= v@.len(),
            r@ == v@.subrange(0, i as int),
        decreases v@.len() - i,
    {
        r.push(v[i]);
        i = i + 1;
        proof {
            assert(r@ == v@.subrange(0, i as int));
        }
    }
    proof {
        assert(v@.subrange(0, v@.len() as int) == v@);
    }
    r
}

/// The groups with their keys as lines.
fn with_line_keys<'s, C: Copy>(Ghost(list): Ghost<Seq<SpanAndCode<C, Span<'s>>>>, g: &Vec<(usize, Vec<SpanAndCode<C, Span<'s>>>)>) -> (r: Vec<(u32, Vec<SpanAndCode<C, Span<'s>>>)>)
    requires
        grouped_by_key(list, true, groups_view(g@)),
    ensures
        groups_view(r@) == groups_view(g@),
{
    let mut r: Vec<(u32, Vec<SpanAndCode<C, Span<'s>>>)> = Vec::new();
    let mut i: usize = 0;
    while i < g.len()
        invariant
            0 <= i <= g@.len(),
            grouped_by_key(list, true, groups_view(g@)),
            r@.len() == i,
            forall|j: int| 0 <= j < i ==> (#[trigger] r@[j]).0 as int == g@[j].0 as int && r@[j].1@ == g@[j].1@,
        decreases g@.len() - i,
    {
        let entries = copy_entries(&g[i].1);
        proof {
            let gv = groups_view(g@);
            assert(gv[i as int] == (g@[i as int].0 as int, g@[i as int].1@));
            assert(gv[i as int].1 == entries_with_key(list, true, gv[i as int].0) && gv[i as int].1.len() > 0);
            lemma_entries_keys(list, true, g@[i as int].0 as int);
            assert(entry_key(entries@[0], true) == g@[i as int].0 as int);
        }
        let line = entries[0].span.location_line();
        r.push((line, entries));
        i = i + 1;
    }
    proof {
        assert(groups_view(r@) =~= groups_view(g@));
    }
    r
}

impl<'s, C: Code, X> ParserError<C, Span<'s>, X> {
    /// The expected codes grouped by the offset of their span, offsets
    /// descending; within a group the most recent first.
    pub fn expected_grouped_by_offset(&self) -> (r: Vec<(usize, Vec<SpanAndCode<C, Span<'s>>>)>)
        ensures
            grouped_by_key(expects(self.hints@).reverse(), false, groups_view(r@)),
    {
        let list = self.iter_expected();
        group_by_key(&list, false)
    }

    /// The expected codes grouped by the line of their span, lines
    /// descending; within a group the most recent first.
    pub fn expected_grouped_by_line(&self) -> (r: Vec<(u32, Vec<SpanAndCode<C, Span<'s>>>)>)
        ensures
            grouped_by_key(expects(self.hints@).reverse(), true, groups_view(r@)),
    {
        let list = self.iter_expected();
        let g = group_by_key(&list, true);
        with_line_keys(Ghost(list@), &g)
    }

    /// The suggested codes grouped by the offset of their span, offsets
    /// descending; within a group the most recent first.
    pub fn suggested_grouped_by_offset(&self) -> (r: Vec<(usize, Vec<SpanAndCode<C, Span<'s>>>)>)
        ensures
            grouped_by_key(suggests(self.hints@).reverse(), false, groups_view(r@)),
    {
        let list = self.iter_suggested();
        group_by_key(&list, false)
    }

    /// The suggested codes grouped by the line of their span, lines
    /// descending; within a group the most recent first.
    pub fn suggested_grouped_by_line(&self) -> (r: Vec<(u32, Vec<SpanAndCode<C, Span<'s>>>)>)
        ensures
            grouped_by_key(suggests(self.hints@).reverse(), true, groups_view(r@)),
    {
        let list = self.iter_suggested();
        let g = group_by_key(&list, true);
        with_line_keys(Ghost(list@), &g)
    }
}

/// A non-empty group comes from an entry with its key.
proof fn lemma_entries_source<'s, C>(list: Seq<SpanAndCode<C, Span<'s>>>, by_line: bool, k: int)
    requires
        entries_with_key(list, by_line, k).len() > 0,
    ensures
        exists|n: int| 0 <= n < list.len() && entry_key(#[trigger] list[n], by_line) == k,
    decreases list.len(),
{
    if entry_key(list.last(), by_line) == k {
        assert(entry_key(list[list.len() - 1], by_line) == k);
    } else {
        lemma_entries_source(list.drop_last(), by_line, k);
        let n = choose|n: int| 0 <= n < list.drop_last().len() && entry_key(#[trigger] list.drop_last()[n], by_line) == k;
        assert(list[n] == list.drop_last()[n]);
    }
}

/// Two strictly descending sequences with the same elements are equal.
proof fn lemma_descending_same_elements(a: Seq<int>, b: Seq<int>)
    requires
        forall|i: int, j: int| 0 <= i < j < a.len() ==> a[i] > a[j],
        forall|i: int, j: int| 0 <= i < j < b.len() ==> b[i] > b[j],
        forall|x: int| a.contains(x) <==> b.contains(x),
    ensures
        a == b,
    decreases a.len(),
{
    if a.len() == 0 {
        if b.len() > 0 {
            assert(b.contains(b[0]));
        }
        assert(b.len() == 0);
    } else {
        assert(a.contains(a[0]));
        assert(b.len() > 0);
        assert(b.contains(b[0]));
        let ia = choose|i: int| 0 <= i < a.len() && a[i] == b[0];
        let ib = choose|i: int| 0 <= i < b.len() && b[i] == a[0];
        assert(a[0] >= a[ia]);
        assert(b[0] >= b[ib]);
        assert(a[0] == b[0]);
        let a1 = a.drop_first();
        let b1 = b.drop_first();
        assert forall|x: int| a1.contains(x) <==> b1.contains(x) by {
            if a1.contains(x) {
                let i = choose|i: int| 0 <= i < a1.len() && a1[i] == x;
                assert(a[i + 1] == x);
                assert(b.contains(x));
                let j = choose|j: int| 0 <= j < b.len() && b[j] == x;
                assert(x < a[0]);
                assert(j != 0);
                assert(b1[j - 1] == x);
            }
            if b1.contains(x) {
                let i = choose|i: int| 0 <= i < b1.len() && b1[i] == x;
                assert(b[i + 1] == x);
                assert(a.contains(x));
                let j = choose|j: int| 0 <= j < a.len() && a[j] == x;
                assert(x < b[0]);
                assert(j != 0);
                assert(a1[j - 1] == x);
            }
        }
        lemma_descending_same_elements(a1, b1);
        assert(a =~= seq![a[0]] + a1);
        assert(b =~= seq![b[0]] + b1);
    }
}

/// The keys of the groups.
pub open spec fn group_keys<'s, C>(groups: Seq<(int, Seq<SpanAndCode<C, Span<'s>>>)>) -> Seq<int> {
    Seq::new(groups.len(), |i: int| groups[i].0)
}

/// The grouping of a list is unique: the contracts of the grouping
/// functions determine their result.
pub proof fn law_grouping_unique<'s, C>(
    list: Seq<SpanAndCode<C, Span<'s>>>,
    by_line: bool,
    g1: Seq<(int, Seq<SpanAndCode<C, Span<'s>>>)>,
    g2: Seq<(int, Seq<SpanAndCode<C, Span<'s>>>)>,
)
    requires
        grouped_by_key(list, by_line, g1),
        grouped_by_key(list, by_line, g2),
    ensures
        g1 == g2,
{
    let k1 = group_keys(g1);
    let k2 = group_keys(g2);
    assert forall|x: int| k1.contains(x) implies k2.contains(x) by {
        let i = choose|i: int| 0 <= i < k1.len() && k1[i] == x;
        assert(g1[i].1 == entries_with_key(list, by_line, g1[i].0) && g1[i].1.len() > 0);
        lemma_entries_source(list, by_line, x);
        let n = choose|n: int| 0 <= n < list.len() && entry_key(#[trigger] list[n], by_line) == x;
        assert(has_group(g2, entry_key(list[n], by_line)));
        let j = choose|j: int| 0 <= j < g2.len() && g2[j].0 == x;
        assert(k2[j] == x);
    }
    assert forall|x: int| k2.contains(x) implies k1.contains(x) by {
        let i = choose|i: int| 0 <= i < k2.len() && k2[i] == x;
        assert(g2[i].1 == entries_with_key(list, by_line, g2[i].0) && g2[i].1.len() > 0);
        lemma_entries_source(list, by_line, x);
        let n = choose|n: int| 0 <= n < list.len() && entry_key(#[trigger] list[n], by_line) == x;
        assert(has_group(g1, entry_key(list[n], by_line)));
        let j = choose|j: int| 0 <= j < g1.len() && g1[j].0 == x;
        assert(k1[j] == x);
    }
    lemma_descending_same_elements(k1, k2);
    assert forall|i: int| 0 <= i < g1.len() implies g1[i] == g2[i] by {
        assert(k1[i] == k2[i]);
        assert(g1[i].1 == entries_with_key(list, by_line, g1[i].0) && g1[i].1.len() > 0);
        assert(g2[i].1 == entries_with_key(list, by_line, g2[i].0) && g2[i].1.len() > 0);
    }
    assert(g1 =~= g2);
}

} // verus!
