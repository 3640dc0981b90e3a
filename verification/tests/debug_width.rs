use kparse::debug::{restrict, restrict_n, DebugWidth};
use kparse::spans::Span;

#[test]
fn widths() {
    assert_eq!(DebugWidth::from_width(None), DebugWidth::Short);
    assert_eq!(DebugWidth::from_width(Some(0)), DebugWidth::Short);
    assert_eq!(DebugWidth::from_width(Some(1)), DebugWidth::Medium);
    assert_eq!(DebugWidth::from_width(Some(2)), DebugWidth::Long);
    assert_eq!(DebugWidth::from_width(Some(7)), DebugWidth::Short);
    assert_eq!(DebugWidth::Medium.max_len(), 40);
}

#[test]
fn restrict_cuts_at_characters() {
    // fewer characters than the limit: all of them stay
    assert_eq!(restrict_n(20, Span::new(b"abc")).fragment(), b"abc");
    // longer: the first max_len characters stay
    assert_eq!(restrict_n(3, Span::new(b"abcdef")).fragment(), b"abc");
    assert_eq!(restrict_n(3, Span::new(b"abc")).fragment(), b"abc");
    assert_eq!(restrict_n(0, Span::new(b"abc")).fragment(), b"");
    assert_eq!(restrict_n(5, Span::new(b"")).fragment(), b"");
    // multi-byte characters are not split
    let t = "äöüx".as_bytes();
    assert_eq!(restrict_n(3, Span::new(t)).fragment(), "äöü".as_bytes());
    let long = [b'x'; 100];
    assert_eq!(restrict(DebugWidth::Short, Span::new(&long)).input_len(), 20);
    assert_eq!(restrict(DebugWidth::Long, Span::new(&long)).input_len(), 60);
}
