use kparse::data_frame::{ByteFrames, DataFrames, StrLines};
use kparse::examples::ExCode;
use kparse::no_context::{NoContext, NoTracker, RawContext, StrContext};
use kparse::source::{Source, SourceBytes, SourceStr};
use kparse::spans::{Span, SpanUnion};
use kparse::Track;

#[test]
fn source_bytes_line_and_column() {
    let txt = b"1234\n5678\n90ab";
    let src = SourceBytes::new(txt);
    assert_eq!(src.len(), 14);
    assert!(!src.is_empty());
    let frag = Span::located(txt, 6, 2, 2);
    assert_eq!(src.offset(frag), 6);
    assert_eq!(src.line(frag), 2);
    assert_eq!(src.column(frag), 1);
    let loc = src.location(Span::located(txt, 10, 1, 3));
    assert_eq!((loc.offset, loc.line, loc.column), (10, 3, 0));
}

#[test]
fn source_str_utf8_column() {
    let txt = "äb\nüüx";
    let src = SourceStr::new(txt);
    let bytes = txt.as_bytes();
    // 'x' is at byte 8, the third character of the second line.
    let frag = Span::located(bytes, 8, 1, 2);
    assert_eq!(src.line(frag), 2);
    assert_eq!(src.column(frag), 2);
    let ascii = SourceStr::new(txt).with_ascii(true);
    assert_eq!(ascii.column(frag), 4);
}

#[test]
fn source_separator() {
    let txt = b"a;b;c";
    let src = SourceBytes::new(txt).with_separator(b';');
    let frag = Span::located(txt, 4, 1, 1);
    assert_eq!(src.line(frag), 3);
    assert_eq!(src.column(frag), 0);
}

#[test]
fn source_lines_around() {
    let txt = b"l1\nl2\nl3\nl4\nl5";
    let src = SourceBytes::new(txt);
    let frag = Span::located(txt, 6, 1, 3);
    let lines = src.get_lines_around(frag, 1);
    let texts: Vec<&[u8]> = lines.iter().map(|s| s.fragment()).collect();
    assert_eq!(texts, vec![&b"l2\n"[..], &b"l3\n"[..], &b"l4\n"[..]]);
    let places: Vec<(usize, u32)> = lines.iter().map(|s| (s.location_offset(), s.location_line())).collect();
    assert_eq!(places, vec![(3, 2), (6, 3), (9, 4)]);
    let start = src.start(frag);
    assert_eq!(start.fragment(), b"l3\n");
}

#[test]
fn track_sources() {
    let s = Track::source_bytes(b"ab\ncd");
    assert_eq!(s.len(), 5);
    let s = Track::source_str("ab");
    assert_eq!(s.len(), 2);
}

#[test]
fn byte_frames_columns() {
    let txt = b"abc\ndef";
    let frames = ByteFrames::new(txt);
    let frag = Span::located(txt, 5, 1, 2);
    assert_eq!(frames.ascii_column(&frag), 1);
    assert_eq!(frames.utf8_column(&frag), 1);
    assert_eq!(frames.naive_utf8_column(&frag), 1);
    assert_eq!(frames.start(&frag).fragment(), b"def");
    assert_eq!(frames.offset(&frag), 5);

    let lines = StrLines::new("xä\nyz");
    let t = "xä\nyz".as_bytes();
    let frag = Span::located(t, 5, 1, 2);
    assert_eq!(lines.ascii_column(&frag), 1);
    assert_eq!(lines.utf8_column(&frag), 1);
}

#[test]
fn span_take_split_counts_lines() {
    let txt = b"a\nb\nc";
    let s = Span::new(txt);
    let (rest, taken) = s.take_split(4);
    assert_eq!(taken.fragment(), b"a\nb\n");
    assert_eq!(rest.fragment(), b"c");
    assert_eq!(rest.location_line(), 3);
    assert_eq!(rest.location_offset(), 4);
}

#[test]
fn span_union_undoes_split() {
    let txt = b"abcdef";
    let s = Span::new(txt);
    let (rest, first) = s.take_split(2);
    let (_, second) = rest.take_split(3);
    let u = s.span_union(&first, &second);
    assert_eq!(u.fragment(), b"abcde");
    // order of the arguments does not matter
    let u = s.span_union(&second, &first);
    assert_eq!(u.fragment(), b"abcde");
}

#[test]
fn contexts_make_spans() {
    let txt = b"xyz";
    assert_eq!(NoContext.span(txt).fragment(), b"xyz");
    assert_eq!(NoTracker.span(txt).fragment(), b"xyz");
    assert_eq!(RawContext::new(txt).span().fragment(), b"xyz");
    assert_eq!(StrContext::new(txt).span().input_len(), 3);
}

#[test]
fn example_codes() {
    assert_eq!(ExCode::ExNomError.as_str(), "nom");
    assert_eq!(ExCode::ExABstar.as_str(), "(A | B)*");
    assert_eq!(ExCode::ExAorB.as_str(), "A | B");
}

#[test]
fn span_lines_agree_with_source() {
    let txt = b"ab\n\ncd\nef";
    let src = SourceBytes::new(txt);
    for n in 0..=txt.len() {
        let (rest, _) = Span::new(txt).take_split(n);
        assert_eq!(rest.location_line() as usize, src.line(rest));
    }
}

#[test]
fn span_union_encompasses_both() {
    let txt = b"1234567890";
    let s = Span::new(txt);
    let first = Span::located(txt, 0, 6, 1);
    let second = Span::located(txt, 2, 1, 1);
    assert_eq!(s.span_union(&first, &second).fragment(), b"123456");
    assert_eq!(s.span_union(&second, &first).fragment(), b"123456");
    let a = Span::located(txt, 3, 2, 1);
    let b = Span::located(txt, 3, 5, 1);
    assert_eq!(s.span_union(&a, &b).fragment(), s.span_union(&b, &a).fragment());
}

#[test]
fn source_current_lines_keep_their_place() {
    let txt = b"aaaa\nbbbb\ncccc";
    let src = SourceBytes::new(txt);
    let mut it = src.current(Span::located(txt, 5, 2, 2));
    let first = it.next().unwrap();
    assert_eq!((first.location_offset(), first.location_line(), first.fragment()), (5, 2, &b"bbbb\n"[..]));
    assert!(it.next().is_none());

    let txt = "aaaa\nbbbb\ncccc";
    let src = SourceStr::new(txt);
    let bytes = txt.as_bytes();
    let mut it = src.current(Span::located(bytes, 3, 4, 1));
    let mut items = Vec::new();
    while let Some(s) = it.next() {
        items.push((s.location_offset(), s.location_line(), s.fragment()));
    }
    assert_eq!(items, vec![(0, 1, &b"aaaa\n"[..]), (5, 2, &b"bbbb\n"[..])]);
}

#[test]
fn str_lines_iter_splits_at_newlines() {
    fn lines_of(txt: &str) -> Vec<String> {
        let lines = StrLines::new(txt);
        let mut it = lines.iter();
        let mut out = Vec::new();
        while let Some(s) = it.next() {
            out.push(String::from_utf8(s.fragment().to_vec()).unwrap());
        }
        out
    }
    for txt in ["a\nb", "a\n", "", "\n\nxy\nz"] {
        let expected: Vec<String> = txt.split('\n').map(|s| s.to_string()).collect();
        assert_eq!(lines_of(txt), expected);
    }
}

#[test]
fn source_lines_tile_the_text() {
    for txt in ["ab\ncd\n", "ab\ncd", "\n\n", "x", ""] {
        let src = SourceStr::new(txt);
        let mut it = src.iter();
        let mut joined: Vec<u8> = Vec::new();
        let mut next_start = 0;
        while let Some(line) = it.next() {
            assert_eq!(line.location_offset(), next_start);
            assert!(line.input_len() > 0);
            let f = line.fragment();
            assert!(!f[..f.len() - 1].contains(&b'\n'));
            joined.extend_from_slice(f);
            next_start += line.input_len();
        }
        assert_eq!(joined, txt.as_bytes());
    }
}
