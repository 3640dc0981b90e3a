use bytecount::count;
use kparse::source::raw;
use kparse::spans::Span;

const SEP: u8 = b'\n';

fn mk_fragment(span: &[u8], start: usize, end: usize) -> &[u8] {
    &span[start..end]
}

fn mk_span(span: &[u8], start: usize, end: usize) -> Span<'_> {
    Span::located(span, start, end - start, 1)
}

// take the list with the sep positions and turn into line bounds.
fn test_bounds(txt: &[u8], occ: &[usize]) -> Vec<[usize; 2]> {
    let mut bounds = Vec::new();

    let mut st = 0usize;
    for b in occ {
        bounds.push([st, *b + 1]);
        st = *b + 1;
    }
    bounds.push([st, txt.len()]);
    bounds
}

fn check_bounds_complete_fragment(
    txt: &[u8],
    start: usize,
    end: usize,
    bounds: &Vec<[usize; 2]>,
) -> (usize, usize) {
    let btxt = txt;

    let start_0 = 'loop_val: {
        for b in bounds.iter() {
            if b[0] <= start && start < b[1] {
                break 'loop_val b[0];
            } else if b[0] <= start && start == b[1] {
                if start > 0 && btxt[start - 1] == SEP {
                    break 'loop_val start;
                } else {
                    break 'loop_val b[0];
                }
            }
        }
        panic!();
    };
    let end_0 = 'loop_val: {
        for (idx, b) in bounds.iter().enumerate() {
            if b[0] <= end && end < b[1] {
                break 'loop_val b[1];
            } else if b[0] <= end && end == b[1] {
                if idx + 1 < bounds.len() {
                    let b1 = bounds[idx + 1];
                    break 'loop_val b1[1];
                } else {
                    break 'loop_val end;
                }
            }
        }
        panic!();
    };

    (start_0, end_0)
}

fn check_bounds_next_fragment(pos: usize, bounds: &Vec<[usize; 2]>) -> (usize, usize) {
    for (idx, b) in bounds.iter().enumerate() {
        if b[0] <= pos && pos < b[1] {
            return (pos, b[1]);
        } else if b[0] <= pos && pos == b[1] {
            if idx + 1 < bounds.len() {
                let b1 = bounds[idx + 1];
                return (b1[0], b1[1]);
            } else {
                return (pos, pos);
            }
        }
    }
    panic!();
}

fn check_bounds_prev_fragment(txt: &[u8], pos: usize, bounds: &Vec<[usize; 2]>) -> (usize, usize) {
    let btxt = txt;

    for b in bounds {
        if b[0] <= pos && pos < b[1] {
            return (b[0], pos);
        } else if b[0] <= pos && pos == b[1] && b[1] > 0 && btxt[b[1] - 1] == SEP {
            return (b[0], b[1]);
        } else if b[0] <= pos && pos == b[1] {
            if pos == txt.len() {
                return (b[0], b[1]);
            }
        }
    }
    panic!();
}

fn all_texts(run: fn(&[u8], &[usize])) {
    run(b"", &[]);
    run(b"a", &[]);
    run(b"aaaa", &[]);
    run(b"\naaaa", &[0]);
    run(b"aaaa\n", &[4]);
    run(b"\naaaa\n", &[0, 5]);
    run(b"aaaa\nbbbb\ncccc\ndddd\neeee", &[4, 9, 14, 19]);
    run(b"aaaa\nbbbb\ncccc\ndddd\neeee\n", &[4, 9, 14, 19, 24]);
    run(b"\naaaa\nbbbb\ncccc\ndddd\neeee", &[0, 5, 10, 15, 20]);
    run(b"\naaaa\nbbbb\ncccc\ndddd\neeee\n", &[0, 5, 10, 15, 20, 25]);
}

#[test]
fn test_frame_prefix() {
    fn run(txt: &[u8], occ: &[usize]) {
        let bounds = test_bounds(txt, occ);
        for i in 0..=txt.len() {
            for j in i..=txt.len() {
                let mut cb = check_bounds_complete_fragment(txt, i, i, &bounds);
                // always override end.
                cb.1 = i;
                let cmp = mk_fragment(txt, cb.0, cb.1);

                let frag = mk_span(txt, i, j);
                let prefix = raw::frame_prefix(txt, frag, SEP);

                assert_eq!(prefix.span, cmp);
            }
        }
    }
    all_texts(run);
}

#[test]
fn test_start_frame() {
    fn run(txt: &[u8], occ: &[usize]) {
        let bounds = test_bounds(txt, occ);
        for i in 0..=txt.len() {
            for j in i..=txt.len() {
                let cb = check_bounds_complete_fragment(txt, i, i, &bounds);
                let cmp = mk_fragment(txt, cb.0, cb.1);

                let frag = mk_span(txt, i, j);
                let next = raw::start_frame(txt, frag, SEP);

                assert_eq!(next.span, cmp);
            }
        }
    }
    all_texts(run);
}

#[test]
fn test_end_frame() {
    fn run(txt: &[u8], occ: &[usize]) {
        let bounds = test_bounds(txt, occ);
        for i in 0..=txt.len() {
            for j in i..=txt.len() {
                let cb = check_bounds_complete_fragment(txt, j, j, &bounds);
                let cmp = mk_fragment(txt, cb.0, cb.1);

                let frag = mk_span(txt, i, j);
                let next = raw::end_frame(txt, frag, SEP);

                assert_eq!(next.span, cmp);
            }
        }
    }
    all_texts(run);
}

#[test]
fn test_complete_fragment() {
    fn run(txt: &[u8], occ: &[usize]) {
        let bounds = test_bounds(txt, occ);
        for i in 0..=txt.len() {
            for j in i..=txt.len() {
                let cb = check_bounds_complete_fragment(txt, i, j, &bounds);
                let cmp = mk_fragment(txt, cb.0, cb.1);

                let frag = mk_span(txt, i, j);
                let next = raw::complete_fragment(txt, frag, SEP);

                assert_eq!(next.span, cmp);
            }
        }
    }
    all_texts(run);
}

#[test]
fn test_next_fragment() {
    fn run(txt: &[u8], occ: &[usize]) {
        let bounds = test_bounds(txt, occ);
        for i in 0..=txt.len() {
            for j in i..=txt.len() {
                let cb = check_bounds_next_fragment(j, &bounds);
                let cmp = mk_fragment(txt, cb.0, cb.1);

                let frag = mk_span(txt, i, j);
                let next = raw::next_fragment(txt, frag, SEP);

                assert_eq!(next.span, cmp);
            }
        }
    }
    all_texts(run);
}

#[test]
fn test_prev_fragment() {
    fn run(txt: &[u8], occ: &[usize]) {
        let bounds = test_bounds(txt, occ);
        for i in 0..=txt.len() {
            for j in i..=txt.len() {
                let cb = check_bounds_prev_fragment(txt, i, &bounds);
                let cmp = mk_fragment(txt, cb.0, cb.1);

                let frag = mk_span(txt, i, j);
                let prev = raw::prev_fragment(txt, frag, SEP);

                assert_eq!(prev.span, cmp);
            }
        }
    }
    all_texts(run);
}

#[test]
fn test_count() {
    fn run(txt: &[u8]) {
        for i in 0..=txt.len() {
            for j in i..=txt.len() {
                let buf = &txt[i..j];
                let n = count(buf, SEP);

                let mut cnt = 0;
                for c in buf {
                    if *c == b'\n' {
                        cnt += 1;
                    }
                }

                assert_eq!(n, cnt);
            }
        }
    }

    run(b"");
    run(b"a");
    run(b"aaaa");
    run(b"aaaa\n");
    run(b"\naaaa");
    run(b"\naaaa\n");
    run(b"\n");
    run(b"\n\n");
    run(b"\n\n\n");
    run(b"\n\n\n\n");
    run(b"\n\n\n\n\n");
}
