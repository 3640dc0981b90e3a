use kparse::combinators::{
    err_into, fchar, fchar_bytes, fsense, fsense_bytes, map_res, pchar, pchar_bytes, psense,
    psense_bytes, separated_list_trailing0,
    separated_list_trailing1, with_code,
};
use kparse::examples::ExCode;
use kparse::parser_error::ParserError;
use kparse::parser_ext::{read_token, KParser, Parser};
use kparse::spans::Span;
use kparse::token_error::TokenizerError;
use kparse::NomErr;

type TErr = TokenizerError<ExCode, Span<'static>>;
type PErr = ParserError<ExCode, Span<'static>>;
type TRes<O> = Result<(Span<'static>, O), NomErr<TErr>>;

fn tag_a(i: Span<'static>) -> TRes<Span<'static>> {
    if i.fragment().first() == Some(&b'a') {
        Ok(i.take_split(1))
    } else {
        Err(NomErr::Error(TokenizerError::new(ExCode::ExNomError, i)))
    }
}

fn comma(i: Span<'static>) -> TRes<Span<'static>> {
    if i.fragment().first() == Some(&b',') {
        Ok(i.take_split(1))
    } else {
        Err(NomErr::Error(TokenizerError::new(ExCode::ExNomError, i)))
    }
}

fn nothing(i: Span<'static>) -> TRes<()> {
    Ok((i, ()))
}

fn frag(s: Span<'static>) -> &'static [u8] {
    s.fragment()
}

#[test]
fn with_code_changes_code_and_cuts_failure() {
    let p = with_code(tag_a, ExCode::ExTagA);
    let r = p.parse(Span::new(b"b"));
    match r {
        Err(NomErr::Error(e)) => assert_eq!(e.code, ExCode::ExTagA),
        _ => panic!(),
    }
    let failing = |i: Span<'static>| -> TRes<()> { Err(NomErr::Failure(TokenizerError::new(ExCode::ExTagB, i))) };
    let r = failing.with_code(ExCode::ExNumber).parse(Span::new(b"b"));
    assert!(matches!(r, Err(NomErr::Error(TokenizerError { code: ExCode::ExNumber, .. }))));
}

#[test]
fn err_into_keeps_kind() {
    let p = err_into::<_, Span<'static>, TErr, PErr>(tag_a);
    let r = p.parse(Span::new(b"b"));
    match r {
        Err(NomErr::Error(e)) => assert_eq!(e.code, ExCode::ExNomError),
        _ => panic!(),
    }
}

#[test]
fn map_res_maps_and_fails() {
    let p = map_res(tag_a, |s: Span<'static>| -> Result<usize, NomErr<TErr>> {
        if s.location_offset() == 0 {
            Ok(s.input_len())
        } else {
            Err(NomErr::Failure(TokenizerError::new(ExCode::ExNumber, s)))
        }
    });
    let r = p.parse(Span::new(b"ab"));
    assert!(matches!(r, Ok((_, 1))));
    let r = p.parse(Span::located(b"ba", 1, 1, 1));
    assert!(matches!(r, Err(NomErr::Failure(TokenizerError { code: ExCode::ExNumber, .. }))));
}

#[test]
fn cut_opt_peek_not() {
    let input = Span::new(b"b");
    let r = tag_a.opt().parse(input);
    assert!(matches!(r, Ok((_, None))));
    let r = tag_a.cut().opt().parse(input);
    assert!(matches!(r, Err(NomErr::Failure(_))));

    let input = Span::new(b"ab");
    let r = tag_a.peek().parse(input);
    let (rest, v) = r.ok().unwrap();
    assert_eq!(rest.location_offset(), 0);
    assert_eq!(frag(v), b"a");

    let r = tag_a.not(ExCode::ExTagA).parse(input);
    assert!(matches!(r, Err(NomErr::Error(TokenizerError { code: ExCode::ExTagA, .. }))));
    let r = tag_a.not(ExCode::ExTagA).parse(Span::new(b"b"));
    assert!(matches!(r, Ok((_, ()))));
}

#[test]
fn sequences() {
    let input = Span::new(b"a,a,");
    let r = tag_a.terminated(comma).parse(input);
    let (rest, v) = r.ok().unwrap();
    assert_eq!(frag(v), b"a");
    assert_eq!(frag(rest), b"a,");

    let r = comma.precedes(tag_a).parse(Span::located(b"a,a,", 1, 3, 1));
    let (rest, v) = r.ok().unwrap();
    assert_eq!(v.location_offset(), 2);
    assert_eq!(frag(rest), b",");

    let r = comma.opt_precedes(tag_a).parse(input);
    let (rest, _) = r.ok().unwrap();
    assert_eq!(frag(rest), b",a,");

    let r = tag_a.delimited_by(comma).parse(Span::located(b"a,a,", 1, 3, 1));
    let (rest, v) = r.ok().unwrap();
    assert_eq!(v.location_offset(), 2);
    assert_eq!(frag(rest), b"");
}

#[test]
fn recognize_consumed_value_all_consuming_complete() {
    let input = Span::new(b"a,a,");
    let p = tag_a.terminated(comma).recognize();
    let (rest, v) = p.parse(input).ok().unwrap();
    assert_eq!(frag(v), b"a,");
    assert_eq!(frag(rest), b"a,");

    let p = tag_a.terminated(comma).consumed();
    let (_, (v, o)) = p.parse(input).ok().unwrap();
    assert_eq!(frag(v), b"a,");
    assert_eq!(frag(o), b"a");

    let (_, v) = tag_a.value(17u32).parse(input).ok().unwrap();
    assert_eq!(v, 17);

    let r = tag_a.all_consuming(ExCode::ExAthenB).parse(input);
    match r {
        Err(NomErr::Error(e)) => {
            assert_eq!(e.code, ExCode::ExAthenB);
            assert_eq!(e.span.location_offset(), 1);
        }
        _ => panic!(),
    }
    assert!(tag_a.all_consuming(ExCode::ExAthenB).parse(Span::new(b"a")).is_ok());

    let incomplete = |_: Span<'static>| -> TRes<()> { Err(NomErr::Incomplete(kparse::Needed::Unknown)) };
    let r = incomplete.complete(ExCode::ExNumber).parse(input);
    assert!(matches!(r, Err(NomErr::Error(TokenizerError { code: ExCode::ExNumber, .. }))));
}

#[test]
fn verify_and_context() {
    let input = Span::new(b"ab");
    let p = tag_a.verify(|v: &Span<'static>| v.input_len() == 2, ExCode::ExTagB);
    let r = p.parse(input);
    match r {
        Err(NomErr::Error(e)) => {
            assert_eq!(e.code, ExCode::ExTagB);
            assert_eq!(e.span.location_offset(), 1);
        }
        _ => panic!(),
    }

    let p = tag_a.with_context::<ExCode, u32>(99);
    let r: Result<(Span<'static>, Span<'static>), NomErr<ParserError<ExCode, Span<'static>, u32>>> =
        p.parse(Span::new(b"b"));
    match r {
        Err(NomErr::Error(e)) => assert_eq!(e.user_data(), Some(&99)),
        _ => panic!(),
    }
}

#[test]
fn separated_lists() {
    let r = separated_list_trailing0::<ExCode, _, _, _, _, TErr>(&comma, &tag_a, Span::new(b"a,a,a;"));
    let (rest, v) = r.ok().unwrap();
    assert_eq!(v.len(), 3);
    assert_eq!(frag(rest), b";");

    // trailing separator
    let r = separated_list_trailing0::<ExCode, _, _, _, _, TErr>(&comma, &tag_a, Span::new(b"a,a,;"));
    let (rest, v) = r.ok().unwrap();
    assert_eq!(v.len(), 2);
    assert_eq!(frag(rest), b";");

    // empty list
    let r = separated_list_trailing0::<ExCode, _, _, _, _, TErr>(&comma, &tag_a, Span::new(b";"));
    let (rest, v) = r.ok().unwrap();
    assert_eq!(v.len(), 0);
    assert_eq!(frag(rest), b";");

    let r = separated_list_trailing1::<ExCode, _, _, _, _, TErr>(&comma, &tag_a, Span::new(b";"));
    assert!(matches!(r, Err(NomErr::Error(_))));

    let r = separated_list_trailing1::<ExCode, _, _, _, _, TErr>(&comma, &tag_a, Span::new(b"a"));
    let (rest, v) = r.ok().unwrap();
    assert_eq!(v.len(), 1);
    assert_eq!(frag(rest), b"");

    // no progress is an error
    let r = separated_list_trailing0::<ExCode, _, _, _, _, TErr>(&nothing, &nothing, Span::new(b"x"));
    match r {
        Err(NomErr::Error(e)) => assert_eq!(e.code, ExCode::ExNomError),
        _ => panic!(),
    }
}

#[test]
fn chars() {
    let input = Span::new(b"a\nb");
    let r = pchar::<ExCode, TErr>('a', input);
    let (rest, taken) = r.ok().unwrap();
    assert_eq!(frag(taken), b"a");
    assert_eq!(frag(rest), b"\nb");

    let r = pchar::<ExCode, TErr>('\n', rest);
    let (rest2, _) = r.ok().unwrap();
    assert_eq!(rest2.location_line(), 2);

    let r = pchar::<ExCode, TErr>('x', input);
    assert!(matches!(r, Err(NomErr::Error(TokenizerError { code: ExCode::ExNomError, .. }))));

    let r = fchar::<ExCode, TErr, _>(&|c: char| c.is_ascii_lowercase(), input);
    assert!(r.is_ok());

    let r = psense::<ExCode, TErr>('a', input);
    let (rest, sensed) = r.ok().unwrap();
    assert_eq!(rest.location_offset(), 0);
    assert_eq!(sensed.input_len(), 0);

    let r = fsense::<ExCode, TErr, _>(&|c: char| c == 'z', input);
    assert!(r.is_err());

    let r = pchar::<ExCode, TErr>('a', Span::new(b""));
    assert!(r.is_err());
}

#[test]
fn chars_beyond_ascii() {
    let txt: &'static [u8] = "äöx".as_bytes();
    let input = Span::new(txt);
    let r = pchar::<ExCode, TErr>('ä', input);
    let (rest, taken) = r.ok().unwrap();
    assert_eq!(frag(taken), "ä".as_bytes());
    assert_eq!(rest.location_offset(), 2);
    assert_eq!(rest.location_line(), 1);

    let r = fchar::<ExCode, TErr, _>(&|c: char| c.is_alphabetic(), rest);
    let (rest2, taken2) = r.ok().unwrap();
    assert_eq!(frag(taken2), "ö".as_bytes());
    assert_eq!(frag(rest2), b"x");

    let r = pchar::<ExCode, TErr>('a', input);
    assert!(r.is_err());

    let r = psense::<ExCode, TErr>('ä', input);
    let (rest, sensed) = r.ok().unwrap();
    assert_eq!(rest.input_len(), 5);
    assert_eq!(sensed.input_len(), 0);

    // a continuation byte does not start a character
    let broken: &'static [u8] = &[0x80, b'a'];
    let r = fsense::<ExCode, TErr, _>(&|_c: char| true, Span::new(broken));
    assert!(r.is_err());
    let three: &'static [u8] = "€".as_bytes();
    let r = pchar::<ExCode, TErr>('€', Span::new(three));
    assert_eq!(r.ok().unwrap().0.location_offset(), 3);
    let four: &'static [u8] = "𝄞!".as_bytes();
    let r = pchar::<ExCode, TErr>('𝄞', Span::new(four));
    assert_eq!(frag(r.ok().unwrap().0), b"!");
}

#[test]
fn read_token_outcomes() {
    let txt: &'static [u8] = b"12x";
    let token = Span::located(txt, 0, 2, 1);
    let rest = Span::located(txt, 2, 1, 1);
    let parsed: TRes<Span<'static>> = Ok((rest, token));
    let r: TRes<u32> = read_token(parsed, Some(12u32), ExCode::ExNumber);
    assert_eq!(r.map(|(rest, v)| (rest.location_offset(), v)).ok(), Some((2, 12)));

    let parsed: TRes<Span<'static>> = Ok((rest, token));
    let r: TRes<u32> = read_token(parsed, None, ExCode::ExNumber);
    match r {
        Err(NomErr::Error(e)) => {
            assert_eq!(e.code, ExCode::ExNumber);
            assert_eq!(e.span.location_offset(), 0);
            assert_eq!(e.span.fragment(), b"12");
        }
        _ => panic!("expected an error at the token"),
    }

    let parsed: TRes<Span<'static>> = Err(NomErr::Failure(TokenizerError::new(ExCode::ExTagB, rest)));
    let r: TRes<u32> = read_token(parsed, Some(1u32), ExCode::ExNumber);
    match r {
        Err(NomErr::Failure(e)) => assert_eq!(e.code, ExCode::ExTagB),
        _ => panic!("expected the parser's failure"),
    }
}

#[test]
fn chars_of_byte_input() {
    // the byte 0xE4 reads as 'ä' (U+00E4), whose encoding has two bytes
    let bytes: &'static [u8] = &[0xE4, b'x', b'y'];
    let input = Span::new(bytes);
    let r = pchar_bytes::<ExCode, TErr>('ä', input);
    let (rest, taken) = r.ok().unwrap();
    assert_eq!(taken.input_len(), 2);
    assert_eq!(frag(rest), b"y");

    let r = fchar_bytes::<ExCode, TErr, _>(&|c: char| c == 'ä', input);
    assert_eq!(r.ok().unwrap().0.location_offset(), 2);

    let r = psense_bytes::<ExCode, TErr>('ä', input);
    let (rest, sensed) = r.ok().unwrap();
    assert_eq!(rest.input_len(), 3);
    assert_eq!(sensed.input_len(), 0);

    let r = fsense_bytes::<ExCode, TErr, _>(&|c: char| c == 'x', input);
    assert!(r.is_err());

    // ASCII bytes are taken one at a time, a newline counts a line
    let input = Span::new(b"\nz");
    let r = pchar_bytes::<ExCode, TErr>('\n', input);
    let (rest, taken) = r.ok().unwrap();
    assert_eq!(taken.input_len(), 1);
    assert_eq!(rest.location_line(), 2);
    let r = pchar_bytes::<ExCode, TErr>('z', Span::new(b""));
    assert!(r.is_err());
}
