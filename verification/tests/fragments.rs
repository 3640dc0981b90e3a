use kparse::fragments::{BufferFragments, Fragment};
use kparse::spans::Span;

#[test]
fn test_raw1() {
    //              01234567890
    let buf = b"1234567890";
    let slice = Span::located(buf, 4, 1, 1);

    let orig = slice.undo_subslice(4);

    assert_eq!(orig.fragment(), &buf[..5]);
}

#[test]
fn test_current_prefix() {
    fn run(buf: &str, nl: &[usize]) {
        let bytes = buf.as_bytes();
        for i in 0..=buf.len() {
            for j in i..=buf.len() {
                let test = Span::located(bytes, i, j - i, 1);
                let prefix = Span::new(bytes).current_prefix(test, b'\n');

                let mut cmp_start = 0;
                let mut cmp_end = 0;
                for idx in nl {
                    if i <= *idx {
                        cmp_end = i;
                        break;
                    } else {
                        cmp_start = *idx + 1;
                    }
                }

                let cmp = &bytes[cmp_start..cmp_end];

                assert_eq!(prefix.fragment(), cmp);
            }
        }
    }

    run("1234\n5678\n90ab", &[4, 9, 14]);
    run("1234\n5678\n90ab\n", &[4, 9, 14, 15]);
}

#[test]
fn test_subslice_offset_3() {
    //              01234 56789 01234
    let buf = b"1234\n5678\n90ab";
    let f0 = Span::located(buf, 0, 8, 1);
    let f1 = Span::located(buf, 8, buf.len() - 8, 2);

    assert_eq!(f0.subslice_offset(f1), 8);
}

#[test]
fn test_und_subslice_1() {
    let buf = b"1234abcd";
    let t = Span::located(buf, 4, 4, 1);

    assert_eq!(t.undo_subslice(4).fragment(), &buf[..]);
}

#[test]
fn columns_count_characters() {
    let buf = "ab\näöx".as_bytes();
    let frag = Span::located(buf, 7, 1, 2);
    let all = Span::new(buf);
    assert_eq!(all.ascii_column(frag, b'\n'), 4);
    assert_eq!(all.utf8_column(frag, b'\n'), 2);
    assert_eq!(all.naive_utf8_column(frag, b'\n'), 2);
}

#[test]
fn count_separators() {
    assert_eq!(Span::new(b"a\nb\n\nc").count(b'\n'), 3);
    assert_eq!(Span::new(b"").count(b'\n'), 0);
    assert_eq!(Span::new(b"abc").count(b'\n'), 0);
}

#[test]
fn fragments_of_lines() {
    let buf = b"l1\nl2\nl3";
    let all = Span::new(buf);
    let frag = Span::located(buf, 3, 2, 2);
    let (off, line) = all.complete_fragment(Span::located(buf, 4, 1, 2), b'\n');
    assert_eq!(off, 3);
    assert_eq!(line.fragment(), b"l2");
    let (off, next, _) = all.next_fragment(frag, b'\n');
    assert_eq!(off, 6);
    assert_eq!(next.fragment(), b"l3");
    let (off, prev, _) = all.prev_fragment(frag, b'\n');
    assert_eq!(off, 0);
    assert_eq!(prev.fragment(), b"l1");
}

#[test]
fn prev_fragment_within_a_line() {
    let buf = b"abcd";
    let all = Span::new(buf);
    let (off, prev, flag) = all.prev_fragment(Span::located(buf, 2, 2, 1), b'\n');
    assert_eq!(off, 0);
    assert_eq!(prev.fragment(), b"ab");
    assert!(flag);
    let (_, prev, flag) = all.prev_fragment(Span::located(buf, 0, 2, 1), b'\n');
    assert_eq!(prev.fragment(), b"");
    assert!(!flag);
}
