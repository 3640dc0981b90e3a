use kparse::examples::ExCode;
use kparse::parser_error::{AppendParserError, Hints, ParserError, SpanAndCode};
use kparse::spans::Span;
use kparse::token_error::TokenizerError;
use kparse::{ErrInto, ErrOrNomErr, KParseError, NomErr};

type PErr<'s> = ParserError<ExCode, Span<'s>>;
type TErr<'s> = TokenizerError<ExCode, Span<'s>>;

fn codes(v: &[SpanAndCode<ExCode, Span<'_>>]) -> Vec<ExCode> {
    v.iter().map(|s| s.code).collect()
}

#[test]
fn parser_error_new_has_no_hints() {
    let txt = b"abc";
    let e: PErr<'_> = ParserError::new(ExCode::ExTagA, Span::new(txt));
    assert_eq!(e.code, ExCode::ExTagA);
    assert!(e.hints.is_empty());
    assert!(e.is_expected(ExCode::ExTagA));
    assert!(!e.is_expected(ExCode::ExTagB));
}

#[test]
fn parser_error_with_code_keeps_old_code_as_expected() {
    let txt = b"abc";
    let e: PErr<'_> = ParserError::new(ExCode::ExTagA, Span::new(txt));
    let e = e.with_code(ExCode::ExTagB);
    assert_eq!(e.code, ExCode::ExTagB);
    assert!(e.is_expected(ExCode::ExTagA));
    assert_eq!(codes(&e.iter_expected()), vec![ExCode::ExTagA]);
}

#[test]
fn parser_error_with_code_drops_nom_error() {
    let txt = b"abc";
    let e: PErr<'_> = ParserError::new(ExCode::ExNomError, Span::new(txt));
    let e = e.with_code(ExCode::ExTagB);
    assert_eq!(e.code, ExCode::ExTagB);
    assert!(e.iter_expected().is_empty());
}

#[test]
fn parser_error_with_same_code_adds_nothing() {
    let txt = b"abc";
    let e: PErr<'_> = ParserError::new(ExCode::ExTagA, Span::new(txt));
    let e = e.with_code(ExCode::ExTagA);
    assert!(e.iter_expected().is_empty());
}

#[test]
fn parser_error_append_err_collects_expected() {
    let txt = b"abc";
    let span = Span::new(txt);
    let mut e: PErr<'_> = ParserError::new(ExCode::ExAorB, span);
    let mut other: PErr<'_> = ParserError::new(ExCode::ExTagA, span);
    other.expect(ExCode::ExNumber, span);
    e.append_err(other);
    // most recent first
    assert_eq!(codes(&e.iter_expected()), vec![ExCode::ExNumber, ExCode::ExTagA]);
    assert!(e.is_expected(ExCode::ExTagA));
    assert!(e.is_expected(ExCode::ExNumber));
    assert!(!e.is_expected(ExCode::ExTagB));
}

#[test]
fn parser_error_append_nom_error_is_not_expected() {
    let txt = b"abc";
    let span = Span::new(txt);
    let mut e: PErr<'_> = ParserError::new(ExCode::ExAorB, span);
    e.append_err(ParserError::new(ExCode::ExNomError, span));
    assert!(e.iter_expected().is_empty());
}

#[test]
fn parser_error_suggestions() {
    let txt = b"abc";
    let span = Span::new(txt);
    let mut e: PErr<'_> = ParserError::new(ExCode::ExAorB, span);
    e.suggest(ExCode::ExTagA, span);
    e.append_suggested(vec![SpanAndCode { code: ExCode::ExTagB, span }]);
    assert!(e.is_suggested(ExCode::ExTagA));
    assert!(e.is_suggested(ExCode::ExTagB));
    assert!(!e.is_suggested(ExCode::ExNumber));
    // the main code counts as suggested
    assert!(e.is_suggested(ExCode::ExAorB));
    assert!(!e.is_expected(ExCode::ExTagA));
    assert_eq!(codes(&e.iter_suggested()), vec![ExCode::ExTagB, ExCode::ExTagA]);
}

#[test]
fn parser_error_append_expected_keeps_order() {
    let txt = b"abc";
    let span = Span::new(txt);
    let mut e: PErr<'_> = ParserError::new(ExCode::ExAorB, span);
    e.append_expected(vec![
        SpanAndCode { code: ExCode::ExTagA, span },
        SpanAndCode { code: ExCode::ExTagB, span },
    ]);
    assert_eq!(codes(&e.iter_expected()), vec![ExCode::ExTagB, ExCode::ExTagA]);
}

#[test]
fn parser_error_cause_and_user_data() {
    let txt = b"abc";
    let span = Span::new(txt);
    let e: ParserError<ExCode, Span<'_>, u32> = ParserError::new(ExCode::ExAorB, span);
    assert_eq!(e.cause(), None);
    assert_eq!(e.user_data(), None);
    let e = e.with_user_data(7).with_cause(3).with_cause(4);
    assert_eq!(e.cause(), Some(&3));
    assert_eq!(e.user_data(), Some(&7));
}

#[test]
fn parser_error_kparse_error_parts() {
    let txt = b"abc";
    let span = Span::located(txt, 1, 2, 1);
    let e: PErr<'_> = KParseError::from(ExCode::ExTagA, span);
    assert_eq!(e.code(), Some(ExCode::ExTagA));
    assert_eq!(e.span().map(|s| s.location_offset()), Some(1));

    let n: NomErr<PErr<'_>> = NomErr::Incomplete(kparse::Needed::Unknown);
    assert_eq!(n.code(), None);
    assert!(n.err().is_none());

    let f: NomErr<PErr<'_>> = ParserError::new(ExCode::ExTagA, span).failure();
    let f = KParseError::with_code(f, ExCode::ExTagB);
    assert!(matches!(f, NomErr::Failure(_)));
    assert_eq!(f.code(), Some(ExCode::ExTagB));
}

#[test]
fn result_with_code_turns_failure_into_error() {
    let txt = b"abc";
    let span = Span::new(txt);
    let r: Result<(Span<'_>, u8), NomErr<PErr<'_>>> = Err(ParserError::new(ExCode::ExTagA, span).failure());
    let r = KParseError::with_code(r, ExCode::ExTagB);
    match r {
        Err(NomErr::Error(e)) => {
            assert_eq!(e.code, ExCode::ExTagB);
            assert!(e.is_expected(ExCode::ExTagA));
        }
        _ => panic!("expected an error"),
    }
}

#[test]
fn tokenizer_error_append_and_with_code() {
    let txt = b"abc";
    let s0 = Span::located(txt, 0, 1, 1);
    let s1 = Span::located(txt, 1, 1, 1);
    let mut e: TErr<'_> = TokenizerError::new(ExCode::ExTagA, s0);
    e.append_err(TokenizerError::new(ExCode::ExNomError, s1));
    assert_eq!(e.code, ExCode::ExTagA);
    assert_eq!(e.span.location_offset(), 0);
    e.append_err(TokenizerError::new(ExCode::ExTagB, s1));
    assert_eq!(e.code, ExCode::ExTagB);
    assert_eq!(e.span.location_offset(), 1);
    let e = e.with_code(ExCode::ExNumber);
    assert_eq!(e.code, ExCode::ExNumber);
    assert_eq!(e.span.location_offset(), 1);
}

#[test]
fn tokenizer_error_or() {
    let txt = b"abc";
    let s0 = Span::located(txt, 0, 1, 1);
    let s1 = Span::located(txt, 1, 1, 1);
    let a: TErr<'_> = TokenizerError::new(ExCode::ExTagA, s0);
    let r = kparse::token_error::or(a, TokenizerError::new(ExCode::ExNomError, s1));
    assert_eq!(r.code, ExCode::ExTagA);
    let r = kparse::token_error::or(a, TokenizerError::new(ExCode::ExTagB, s1));
    assert_eq!(r.code, ExCode::ExTagB);
}

#[test]
fn parser_error_or_appends() {
    let txt = b"abc";
    let span = Span::new(txt);
    let a: PErr<'_> = ParserError::new(ExCode::ExTagA, span);
    let r = kparse::parser_error::or(a, ParserError::new(ExCode::ExTagB, span));
    assert_eq!(r.code, ExCode::ExTagA);
    assert!(r.is_expected(ExCode::ExTagB));
}

#[test]
fn err_into_converts_tokenizer_error() {
    let txt = b"abc";
    let span = Span::located(txt, 2, 1, 1);
    let r: Result<(Span<'_>, u8), NomErr<TErr<'_>>> = Err(TokenizerError::new(ExCode::ExTagB, span).failure());
    let r: Result<(Span<'_>, u8), NomErr<PErr<'_>>> = r.err_into();
    match r {
        Err(NomErr::Failure(e)) => {
            assert_eq!(e.code, ExCode::ExTagB);
            assert_eq!(e.span.location_offset(), 2);
            assert!(e.hints.is_empty());
        }
        _ => panic!("expected a failure"),
    }
    let ok: Result<(Span<'_>, u8), NomErr<TErr<'_>>> = Ok((span, 5));
    let ok: Result<(Span<'_>, u8), NomErr<PErr<'_>>> = ok.err_into();
    assert!(matches!(ok, Ok((_, 5))));
}

#[test]
fn wrap_errors() {
    let txt = b"abc";
    let span = Span::new(txt);
    let e: TErr<'_> = TokenizerError::new(ExCode::ExTagB, span);
    assert!(matches!(e.wrap(), NomErr::Error(_)));
    let f: NomErr<TErr<'_>> = e.failure();
    assert!(matches!(f.wrap(), NomErr::Failure(_)));
}

#[test]
fn append_parser_error_variants() {
    let txt = b"abc";
    let span = Span::new(txt);

    let mut none: Option<PErr<'_>> = None;
    none.append(ParserError::new(ExCode::ExTagA, span));
    assert_eq!(none.as_ref().map(|e| e.code), Some(ExCode::ExTagA));
    none.append(ParserError::new(ExCode::ExTagB, span));
    assert!(none.as_ref().unwrap().is_expected(ExCode::ExTagB));

    let mut opt: Option<PErr<'_>> = None;
    let r = opt.append(NomErr::Incomplete(kparse::Needed::Size(3)));
    assert!(matches!(r, Err(NomErr::Incomplete(kparse::Needed::Size(3)))));
    assert!(opt.is_none());

    let mut n: NomErr<PErr<'_>> = ParserError::new(ExCode::ExTagA, span).failure();
    let r = n.append(ParserError::new(ExCode::ExTagB, span));
    assert!(r.is_ok());
    match &n {
        NomErr::Failure(e) => assert!(e.is_expected(ExCode::ExTagB)),
        _ => panic!("kind changed"),
    }

    let mut p: PErr<'_> = ParserError::new(ExCode::ExTagA, span);
    let r = p.append(ParserError::new(ExCode::ExNumber, span).error());
    assert!(r.is_ok());
    assert!(p.is_expected(ExCode::ExNumber));
    assert!(matches!(p.hints[0], Hints::Expect(_)));
}

#[test]
fn parser_error_expected_grouped_by_offset_and_line() {
    let txt = b"ab\ncd\nef";
    let s0 = Span::located(txt, 0, 1, 1);
    let s3 = Span::located(txt, 3, 1, 2);
    let s4 = Span::located(txt, 4, 1, 2);
    let mut e: PErr<'_> = ParserError::new(ExCode::ExAorB, s0);
    e.expect(ExCode::ExTagA, s3);
    e.expect(ExCode::ExTagB, s0);
    e.expect(ExCode::ExNumber, s4);
    e.expect(ExCode::ExAthenB, s3);

    let g = e.expected_grouped_by_offset();
    let keys: Vec<usize> = g.iter().map(|x| x.0).collect();
    assert_eq!(keys, vec![4, 3, 0]);
    assert_eq!(codes(&g[0].1), vec![ExCode::ExNumber]);
    // most recent first within a group
    assert_eq!(codes(&g[1].1), vec![ExCode::ExAthenB, ExCode::ExTagA]);
    assert_eq!(codes(&g[2].1), vec![ExCode::ExTagB]);

    let g = e.expected_grouped_by_line();
    let keys: Vec<u32> = g.iter().map(|x| x.0).collect();
    assert_eq!(keys, vec![2, 1]);
    assert_eq!(codes(&g[0].1), vec![ExCode::ExAthenB, ExCode::ExNumber, ExCode::ExTagA]);
    assert_eq!(codes(&g[1].1), vec![ExCode::ExTagB]);
}

#[test]
fn parser_error_suggested_grouped() {
    let txt = b"ab\ncd";
    let s1 = Span::located(txt, 1, 1, 1);
    let s4 = Span::located(txt, 4, 1, 2);
    let mut e: PErr<'_> = ParserError::new(ExCode::ExAorB, s1);
    assert!(e.suggested_grouped_by_offset().is_empty());
    e.suggest(ExCode::ExTagA, s1);
    e.suggest(ExCode::ExTagB, s4);
    let g = e.suggested_grouped_by_offset();
    assert_eq!(g.iter().map(|x| x.0).collect::<Vec<_>>(), vec![4, 1]);
    let g = e.suggested_grouped_by_line();
    assert_eq!(g.iter().map(|x| x.0).collect::<Vec<_>>(), vec![2, 1]);
    assert!(e.expected_grouped_by_line().is_empty());
}
