use kparse::combinators::track;
use kparse::examples::ExCode;
use kparse::parser_error::ParserError;
use kparse::provider::{StdTracker, TrackData};
use kparse::spans::Span;
use kparse::token_error::TokenizerError;
use kparse::{NomErr, Track, TrackResult};

type PErr<'s> = ParserError<ExCode, Span<'s>>;
type TErr<'s> = TokenizerError<ExCode, Span<'s>>;

fn kinds(tracker: &mut StdTracker<'_, ExCode>) -> Vec<(&'static str, ExCode, usize)> {
    tracker
        .results()
        .iter()
        .map(|t| {
            let k = match &t.track {
                TrackData::Enter(_, _) => "enter",
                TrackData::Exit() => "exit",
                TrackData::Parsed(_, _) => "ok",
                TrackData::Failed(_, _, _) => "err",
                TrackData::Warn(_, _) => "warn",
                TrackData::Info(_, _) => "info",
                TrackData::Debug(_, _) => "debug",
            };
            (k, t.func, t.callstack.len())
        })
        .collect()
}

#[test]
fn tracker_records_calls_with_call_stack() {
    let txt = b"aab";
    let mut tracker: StdTracker<'_, ExCode> = Track::new_tracker();
    let span = Track::new_span(&tracker, txt);
    Track.enter(&mut tracker, ExCode::ExAstarB, span);
    Track.enter(&mut tracker, ExCode::ExTagA, span);
    let (rest, _) = span.take_split(1);
    let r: Result<(Span<'_>, u8), NomErr<PErr<'_>>> = Track.ok(&mut tracker, rest, span, 1u8);
    assert!(r.is_ok());
    Track.info(&mut tracker, rest, "info");
    Track.warn(&mut tracker, rest, "warn");
    Track.debug(&mut tracker, rest, String::from("debug"));
    assert_eq!(tracker.callstack(), vec![ExCode::ExAstarB]);
    let r: Result<(Span<'_>, u8), NomErr<PErr<'_>>> =
        Track.err(&mut tracker, ParserError::new(ExCode::ExTagB, rest));
    assert!(matches!(r, Err(NomErr::Error(_))));
    assert!(tracker.callstack().is_empty());

    assert_eq!(
        kinds(&mut tracker),
        vec![
            ("enter", ExCode::ExAstarB, 1),
            ("enter", ExCode::ExTagA, 2),
            ("ok", ExCode::ExTagA, 2),
            ("exit", ExCode::ExTagA, 2),
            ("info", ExCode::ExAstarB, 1),
            ("warn", ExCode::ExAstarB, 1),
            ("debug", ExCode::ExAstarB, 1),
            ("err", ExCode::ExAstarB, 1),
            ("exit", ExCode::ExAstarB, 1),
        ]
    );
    // results() empties the tracker
    assert!(tracker.results().is_empty());
}

#[test]
fn tracking_plain_bytes_records_nothing() {
    let txt: &[u8] = b"ab";
    let mut tracker: StdTracker<'_, ExCode> = StdTracker::new();
    Track.enter(&mut tracker, ExCode::ExTagA, txt);
    Track.ok_section(&mut tracker, txt, txt);
    assert!(tracker.results().is_empty());
    assert!(tracker.callstack().is_empty());
}

#[test]
fn track_result_changes_code() {
    let txt = b"ab";
    let mut tracker: StdTracker<'_, ExCode> = StdTracker::new();
    let span = Span::new(txt);
    Track.enter(&mut tracker, ExCode::ExAorB, span);
    let r: Result<(Span<'_>, u8), NomErr<TErr<'_>>> = Err(TokenizerError::new(ExCode::ExTagA, span).error());
    let r = r.track_as(&mut tracker, ExCode::ExTagB);
    match r {
        Err(NomErr::Error(e)) => assert_eq!(e.code, ExCode::ExTagB),
        _ => panic!("expected an error"),
    }
    let t = tracker.results();
    assert_eq!(t.len(), 3);
    match &t[1].track {
        TrackData::Failed(_, code, _) => assert_eq!(*code, ExCode::ExTagB),
        _ => panic!("expected a failure record"),
    }
}

#[test]
fn track_result_ok_records_nothing() {
    let txt = b"ab";
    let mut tracker: StdTracker<'_, ExCode> = StdTracker::new();
    let span = Span::new(txt);
    let r: Result<(Span<'_>, u8), NomErr<TErr<'_>>> = Ok((span, 1));
    let r = r.track(&mut tracker);
    assert!(matches!(r, Ok((_, 1))));
    assert!(tracker.results().is_empty());
}

#[test]
fn track_combinator_enters_and_exits() {
    let txt = b"ab";
    let mut tracker: StdTracker<'_, ExCode> = StdTracker::new();
    let span = Span::new(txt);
    let parse_a = |i: Span<'static>| -> Result<(Span<'static>, Span<'static>), NomErr<TErr<'static>>> {
        if i.fragment().first() == Some(&b'a') {
            Ok(i.take_split(1))
        } else {
            Err(NomErr::Error(TokenizerError::new(ExCode::ExTagA, i)))
        }
    };
    let r = track(ExCode::ExTagA, &parse_a, &mut tracker, span);
    let (rest, _) = r.ok().unwrap();
    let r = track(ExCode::ExTagA, &parse_a, &mut tracker, rest);
    assert!(r.is_err());
    let k = kinds(&mut tracker);
    assert_eq!(
        k.iter().map(|x| x.0).collect::<Vec<_>>(),
        vec!["enter", "ok", "exit", "enter", "err", "exit"]
    );
}

#[test]
fn tracker_track_exit_pops() {
    let txt = b"ab";
    let mut tracker: StdTracker<'_, ExCode> = StdTracker::new();
    let span = Span::new(txt);
    tracker.track(TrackData::Enter(ExCode::ExTagA, span));
    tracker.track(TrackData::Enter(ExCode::ExTagB, span));
    assert_eq!(tracker.func(), ExCode::ExTagB);
    tracker.track(TrackData::Exit());
    assert_eq!(tracker.func(), ExCode::ExTagA);
    let t = tracker.results();
    assert_eq!(t[2].func, ExCode::ExTagB);
    assert_eq!(t[2].callstack, vec![ExCode::ExTagA, ExCode::ExTagB]);
}

#[test]
fn failure_record_renders_the_error() {
    let txt = b"ab";
    let mut tracker: StdTracker<'_, ExCode> = StdTracker::new();
    let span = Span::new(txt);
    Track.enter(&mut tracker, ExCode::ExAorB, span);
    let r: Result<(Span<'_>, u8), NomErr<TErr<'_>>> =
        Track.err(&mut tracker, TokenizerError::new(ExCode::ExTagB, span));
    assert!(r.is_err());
    let t = tracker.results();
    match &t[1].track {
        TrackData::Failed(_, code, text) => {
            assert_eq!(*code, ExCode::ExTagB);
            assert!(text.contains("ExTagB"));
        }
        _ => panic!("expected a failure record"),
    }
}

#[test]
fn track_depths_follow_the_call_stack() {
    let txt = b"ab";
    let mut tracker: StdTracker<'_, ExCode> = StdTracker::new();
    let span = Span::new(txt);
    tracker.track(TrackData::Enter(ExCode::ExAorB, span));
    tracker.track(TrackData::Enter(ExCode::ExTagA, span));
    tracker.track(TrackData::Parsed(span, span));
    tracker.track(TrackData::Exit());
    tracker.track(TrackData::Info(span, "x"));
    tracker.track(TrackData::Exit());
    let t = tracker.results();
    let depths = kparse::provider::track_depths(&t);
    assert_eq!(depths, vec![1, 2, 2, 2, 1, 1]);
    for (rec, d) in t.iter().zip(depths.iter()) {
        assert_eq!(rec.callstack.len(), *d);
    }
}

#[test]
fn track_result_track_ok_records_ok_and_exit() {
    let txt = b"ab";
    let mut tracker: StdTracker<'_, ExCode> = StdTracker::new();
    let span = Span::new(txt);
    Track.enter(&mut tracker, ExCode::ExTagA, span);
    let (rest, _) = span.take_split(1);
    let r: Result<(Span<'_>, u8), NomErr<TErr<'_>>> = Ok((rest, 1));
    let r = r.track_ok(&mut tracker, span);
    assert!(matches!(r, Ok((_, 1))));
    assert!(tracker.callstack().is_empty());
    assert_eq!(
        kinds(&mut tracker).iter().map(|x| x.0).collect::<Vec<_>>(),
        vec!["enter", "ok", "exit"]
    );
}
