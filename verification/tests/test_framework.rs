use kparse::examples::ExCode;
use kparse::parser_error::ParserError;
use kparse::spans::Span;
use kparse::test::{NoReport, Test};
use kparse::token_error::TokenizerError;
use kparse::NomErr;

type PErr<'s> = ParserError<ExCode, Span<'s>>;
type TErr<'s> = TokenizerError<ExCode, Span<'s>>;

#[test]
fn test_checks_ok_results() {
    let txt = b"abc";
    let span = Span::new(txt);
    let (rest, tok) = span.take_split(1);
    let t: Test<Span<'_>, Span<'_>, TErr<'_>> = Test::new(span, Ok((rest, tok)));
    let t = t.ok_any();
    assert!(!t.failed);
    let t = t.rest(b"bc");
    assert!(!t.failed);
    let t = t.ok(|v: &Span<'_>, w: &[u8]| v.fragment() == w, &b"a"[..]);
    assert!(!t.failed);
    let t = t.rest(b"c");
    assert!(t.failed);
    t.q(NoReport);

    let t: Test<Span<'_>, Span<'_>, TErr<'_>> = Test::new(span, Ok((rest, tok)));
    assert!(t.err_any().failed);
    let t: Test<Span<'_>, Span<'_>, TErr<'_>> = Test::new(span, Ok((rest, tok)));
    assert!(t.err(ExCode::ExTagA).failed);
    let t: Test<Span<'_>, Span<'_>, TErr<'_>> = Test::new(span, Ok((rest, tok)));
    assert!(t.fail().failed);
}

#[test]
fn test_checks_errors() {
    let txt = b"abc";
    let span = Span::new(txt);
    let t: Test<Span<'_>, (), TErr<'_>> = Test::new(span, Err(NomErr::Failure(TokenizerError::new(ExCode::ExTagA, span))));
    let t = t.err_any().err(ExCode::ExTagA);
    assert!(!t.failed);
    let t = t.err(ExCode::ExTagB);
    assert!(t.failed);

    let mut e: PErr<'_> = ParserError::new(ExCode::ExAorB, span);
    e.expect(ExCode::ExTagA, span);
    let t: Test<Span<'_>, (), PErr<'_>> = Test::new(span, Err(NomErr::Error(e)));
    let t = t.expect(ExCode::ExTagA).expect(ExCode::ExAorB);
    assert!(!t.failed);
    let t = t.expect(ExCode::ExTagB);
    assert!(t.failed);

    let t: Test<Span<'_>, (), PErr<'_>> = Test::new(span, Err(NomErr::Incomplete(kparse::Needed::Unknown)));
    assert!(t.err(ExCode::ExTagA).failed);
    let t: Test<Span<'_>, (), PErr<'_>> = Test::new(span, Err(NomErr::Incomplete(kparse::Needed::Unknown)));
    assert!(t.ok_any().failed);
}
