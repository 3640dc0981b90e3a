//! The tracking backend: collects what the parser reports while it runs,
//! together with the call stack of parser functions at each report.

use crate::spans::Span;
use crate::Code;
use vstd::prelude::*;

verus! {

/// Data packet for the tracker.
#[derive(Debug)]
pub enum TrackData<'s, C> {
    /// Enter function
    Enter(C, Span<'s>),
    /// Exit function
    Exit(),
    /// Ok result: the remaining input and the parsed input.
    Parsed(Span<'s>, Span<'s>),
    /// Err result: the error span, the error code and a rendering of the error.
    Failed(Span<'s>, C, String),
    /// Warning
    Warn(Span<'s>, &'static str),
    /// General info
    Info(Span<'s>, &'static str),
    /// Debug info
    Debug(Span<'s>, String),
}

/// One tracked event: the function that was current when it happened, the
/// whole call stack at that time (innermost last) and the event itself.
#[derive(Debug)]
pub struct TrackedData<'s, C> {
    /// Current function.
    pub func: C,
    /// Call stack, the current function last.
    pub callstack: Vec<C>,
    /// The event.
    pub track: TrackData<'s, C>,
}

/// The call stack after an event: entering pushes the function, exiting
/// pops it, everything else leaves the stack alone.
pub open spec fn next_stack<'s, C>(stack: Seq<C>, data: TrackData<'s, C>) -> Seq<C> {
    match data {
        TrackData::Enter(f, _) => stack.push(f),
        TrackData::Exit() => stack.drop_last(),
        _ => stack,
    }
}

/// The call stack recorded with an event: for an `Enter` the one after it,
/// for every other event the one before it.
pub open spec fn record_stack<'s, C>(stack: Seq<C>, data: TrackData<'s, C>) -> Seq<C> {
    match data {
        TrackData::Enter(f, _) => stack.push(f),
        _ => stack,
    }
}

/// An event can be recorded: an `Enter` always, anything else only inside
/// some function.
pub open spec fn can_record<'s, C>(stack: Seq<C>, data: TrackData<'s, C>) -> bool {
    data is Enter || stack.len() > 0
}

/// `rec` is the record of `data` for the call stack `stack` before it.
pub open spec fn is_record_of<'s, C>(rec: TrackedData<'s, C>, stack: Seq<C>, data: TrackData<'s, C>) -> bool {
    &&& rec.callstack@ == record_stack(stack, data)
    &&& rec.func == record_stack(stack, data).last()
    &&& rec.track == data
}

/// A record names the innermost function of its call stack.
pub open spec fn well_formed_record<'s, C>(rec: TrackedData<'s, C>) -> bool {
    rec.callstack@.len() > 0 && rec.func == rec.callstack@.last()
}

/// The standard tracker: a call stack of parser functions and the list of
/// recorded events.
pub struct StdTracker<'s, C: Code> {
    func: Vec<C>,
    track: Vec<TrackedData<'s, C>>,
}

impl<'s, C: Code> StdTracker<'s, C> {
    /// The current call stack, innermost function last.
    pub closed spec fn stack(self) -> Seq<C> {
        self.func@
    }

    /// The events recorded so far, oldest first.
    pub closed spec fn tracks(self) -> Seq<TrackedData<'s, C>> {
        self.track@
    }

    /// Creates a tracker with an empty call stack and no events.
    pub fn new() -> (r: Self)
        ensures
            r.stack() == Seq::<C>::empty(),
            r.tracks() == Seq::<TrackedData<'s, C>>::empty(),
            r.well_formed(),
    {
        StdTracker { func: Vec::new(), track: Vec::new() }
    }

    /// Current function, the innermost one of the call stack.
    pub fn func(&self) -> (r: C)
        requires
            self.stack().len() > 0,
        ensures
            r == self.stack().last(),
    {
        self.func[self.func.len() - 1]
    }

    /// A copy of the current call stack.
    pub fn callstack(&self) -> (r: Vec<C>)
        ensures
            r@ == self.stack(),
    {
        let mut r: Vec<C> = Vec::new();
        let mut i: usize = 0;
        while i < self.func.len()
            invariant
                0 <= i <= self.func@.len(),
                r@ == self.func@.subrange(0, i as int),
            decreases self.func@.len() - i,
        {
            r.push(self.func[i]);
            i = i + 1;
            proof {
                assert(r@ == self.func@.subrange(0, i as int));
            }
        }
        proof {
            assert(self.func@.subrange(0, self.func@.len() as int) == self.func@);
        }
        r
    }

    /// Records one event.
    ///
    /// An `Enter` pushes its function on the call stack and is recorded with
    /// the new stack; an `Exit` is recorded with the stack before it and then
    /// pops the innermost function; every other event is recorded with the
    /// current stack.
    pub fn track(&mut self, data: TrackData<'s, C>)
        requires
            can_record(old(self).stack(), data),
        ensures
            tracked_by(*old(self), *final(self), data),
            old(self).well_formed() ==> final(self).well_formed(),
    {
        let is_enter = match &data {
            TrackData::Enter(f, _) => {
                self.func.push(*f);
                true
            },
            _ => false,
        };
        let is_exit = match &data {
            TrackData::Exit() => true,
            _ => false,
        };
        let callstack = self.callstack();
        let func = self.func();
        let ghost old_tracks = self.track@;
        let rec = TrackedData { func, callstack, track: data };
        self.track.push(rec);
        proof {
            assert(self.track@.drop_last() == old_tracks);
        }
        if is_exit {
            self.func.pop();
        }
        proof {
            assert(is_enter <==> data is Enter);
            if old(self).well_formed() {
                law_tracked_by_well_formed(*old(self), *self, data);
            }
        }
    }

    /// Takes the recorded events out of the tracker and resets it: the call
    /// stack and the list of events are empty afterwards.
    pub fn results(&mut self) -> (r: Vec<TrackedData<'s, C>>)
        ensures
            r@ == old(self).tracks(),
            final(self).stack() == Seq::<C>::empty(),
            final(self).tracks() == Seq::<TrackedData<'s, C>>::empty(),
            final(self).well_formed(),
            old(self).well_formed() ==> consistent(r@),
    {
        let mut track: Vec<TrackedData<'s, C>> = Vec::new();
        let mut func: Vec<C> = Vec::new();
        std::mem::swap(&mut track, &mut self.track);
        std::mem::swap(&mut func, &mut self.func);
        track
    }

    /// Creates a span over the whole text, to be parsed with this tracker.
    pub fn track_span(&self, text: &'s [u8]) -> (r: Span<'s>)
        requires
            text@.len() < usize::MAX,
        ensures
            r.text() == text@,
            r.start() == 0,
            r.end() == text@.len(),
            r.line() == 1,
    {
        Span::new(text)
    }
}

/// `new` is `old` after recording `data`: the call stack moved on as
/// `next_stack` says, and one record was appended.
pub open spec fn tracked_by<'s, C: Code>(old: StdTracker<'s, C>, new: StdTracker<'s, C>, data: TrackData<'s, C>) -> bool {
    &&& new.stack() == next_stack(old.stack(), data)
    &&& new.tracks().len() == old.tracks().len() + 1
    &&& new.tracks().drop_last() == old.tracks()
    &&& is_record_of(new.tracks().last(), old.stack(), data)
}

/// `new` is `old` after recording `first` and then `second`.
pub open spec fn tracked_pair<'s, C: Code>(
    old: StdTracker<'s, C>,
    new: StdTracker<'s, C>,
    first: TrackData<'s, C>,
    second: TrackData<'s, C>,
) -> bool {
    let n = old.tracks().len();
    let mid = next_stack(old.stack(), first);
    &&& new.stack() == next_stack(mid, second)
    &&& new.tracks().len() == n + 2
    &&& new.tracks().subrange(0, n as int) == old.tracks()
    &&& is_record_of(new.tracks()[n as int], old.stack(), first)
    &&& is_record_of(new.tracks()[n + 1int], mid, second)
}

/// `new` is `old` after recording `first`, `second` and `third`.
pub open spec fn tracked_triple<'s, C: Code>(
    old: StdTracker<'s, C>,
    new: StdTracker<'s, C>,
    first: TrackData<'s, C>,
    second: TrackData<'s, C>,
    third: TrackData<'s, C>,
) -> bool {
    let n = old.tracks().len();
    let s1 = next_stack(old.stack(), first);
    let s2 = next_stack(s1, second);
    &&& new.stack() == next_stack(s2, third)
    &&& new.tracks().len() == n + 3
    &&& new.tracks().subrange(0, n as int) == old.tracks()
    &&& is_record_of(new.tracks()[n as int], old.stack(), first)
    &&& is_record_of(new.tracks()[n + 1int], s1, second)
    &&& is_record_of(new.tracks()[n + 2int], s2, third)
}

/// A step followed by a pair of steps makes a triple.
pub proof fn lemma_tracked_triple<'s, C: Code>(
    old: StdTracker<'s, C>,
    mid: StdTracker<'s, C>,
    new: StdTracker<'s, C>,
    first: TrackData<'s, C>,
    second: TrackData<'s, C>,
    third: TrackData<'s, C>,
)
    requires
        tracked_by(old, mid, first),
        tracked_pair(mid, new, second, third),
    ensures
        tracked_triple(old, new, first, second, third),
{
    let n = old.tracks().len();
    assert(mid.tracks().drop_last() == old.tracks());
    assert(new.tracks()[n as int] == mid.tracks().subrange(0, n + 1int)[n as int]);
    assert(new.tracks().subrange(0, n as int) == old.tracks()) by {
        assert forall|i: int| 0 <= i < n implies new.tracks()[i] == old.tracks()[i] by {
            assert(new.tracks()[i] == mid.tracks().subrange(0, n + 1int)[i]);
            assert(mid.tracks()[i] == old.tracks()[i]);
        }
    }
}

/// `new` is `old` after entering `func` at `input`, a failure at `span`
/// with `code`, whatever its rendering, and the exit of `func`.
pub open spec fn tracked_call_failed<'s, C: Code>(
    old: StdTracker<'s, C>,
    new: StdTracker<'s, C>,
    func: C,
    input: Span<'s>,
    span: Span<'s>,
    code: C,
) -> bool {
    let failed = new.tracks()[old.tracks().len() + 1int].track;
    &&& failed matches TrackData::Failed(sp, c, _) && sp == span && c == code
    &&& tracked_triple(old, new, TrackData::Enter(func, input), failed, TrackData::Exit())
}

/// `new` is `old` after recording a failure at `span` with `code`, whatever
/// its rendering, followed by an `Exit`.
pub open spec fn tracked_failure_exit<'s, C: Code>(
    old: StdTracker<'s, C>,
    new: StdTracker<'s, C>,
    span: Span<'s>,
    code: C,
) -> bool {
    let first = new.tracks()[old.tracks().len() as int].track;
    &&& first matches TrackData::Failed(sp, c, _) && sp == span && c == code
    &&& tracked_pair(old, new, first, TrackData::Exit())
}

/// `new` is `old` after recording a failure at `span` with `code`, whatever
/// its rendering.
pub open spec fn tracked_failure<'s, C: Code>(
    old: StdTracker<'s, C>,
    new: StdTracker<'s, C>,
    span: Span<'s>,
    code: C,
) -> bool {
    let first = new.tracks().last().track;
    &&& first matches TrackData::Failed(sp, c, _) && sp == span && c == code
    &&& tracked_by(old, new, first)
}

/// The tracker did not change.
pub open spec fn unchanged<'s, C: Code>(old: StdTracker<'s, C>, new: StdTracker<'s, C>) -> bool {
    new.stack() == old.stack() && new.tracks() == old.tracks()
}

/// Two steps of tracking make a pair.
pub proof fn lemma_tracked_pair<'s, C: Code>(
    old: StdTracker<'s, C>,
    mid: StdTracker<'s, C>,
    new: StdTracker<'s, C>,
    first: TrackData<'s, C>,
    second: TrackData<'s, C>,
)
    requires
        tracked_by(old, mid, first),
        tracked_by(mid, new, second),
    ensures
        tracked_pair(old, new, first, second),
{
    let n = old.tracks().len();
    assert(new.tracks().drop_last() == mid.tracks());
    assert(mid.tracks().drop_last() == old.tracks());
    assert(new.tracks()[n as int] == mid.tracks()[n as int]);
    assert(new.tracks().subrange(0, n as int) == old.tracks()) by {
        assert forall|i: int| 0 <= i < n implies new.tracks()[i] == old.tracks()[i] by {
            assert(new.tracks()[i] == mid.tracks()[i]);
            assert(mid.tracks()[i] == old.tracks()[i]);
        }
    }
}

/// The record of an event that can be recorded names the innermost function
/// of the call stack recorded with it.
pub proof fn law_record_well_formed<'s, C>(rec: TrackedData<'s, C>, stack: Seq<C>, data: TrackData<'s, C>)
    requires
        can_record(stack, data),
        is_record_of(rec, stack, data),
    ensures
        well_formed_record(rec),
{
}

/// Entering a function and exiting it again restores the call stack.
pub proof fn law_enter_exit<'s, C>(stack: Seq<C>, func: C, span: Span<'s>)
    ensures
        next_stack(next_stack(stack, TrackData::Enter(func, span)), TrackData::Exit()) == stack,
{
    assert(stack.push(func).drop_last() == stack);
}

/// Events other than `Enter` and `Exit` leave the call stack unchanged.
pub proof fn law_other_keeps_stack<'s, C>(stack: Seq<C>, data: TrackData<'s, C>)
    requires
        !(data is Enter),
        !(data is Exit),
    ensures
        next_stack(stack, data) == stack,
        record_stack(stack, data) == stack,
{
}

/// A tracked call is balanced: entering a function, any number of events
/// that are neither `Enter` nor `Exit`, and the exit leave the call stack
/// as it was.
pub proof fn law_call_balanced<'s, C>(stack: Seq<C>, func: C, span: Span<'s>, events: Seq<TrackData<'s, C>>)
    requires
        forall|i: int| 0 <= i < events.len() ==> !(#[trigger] events[i] is Enter) && !(events[i] is Exit),
    ensures
        next_stack(stack_after(next_stack(stack, TrackData::Enter(func, span)), events), TrackData::Exit()) == stack,
    decreases events.len(),
{
    if events.len() == 0 {
        assert(stack.push(func).drop_last() == stack);
    } else {
        law_call_balanced(stack, func, span, events.drop_last());
        assert(!(events.last() is Enter) && !(events.last() is Exit)) by {
            assert(events.last() == events[events.len() - 1]);
        }
        assert(forall|i: int| 0 <= i < events.drop_last().len() ==> events.drop_last()[i] == events[i]);
    }
}

/// The call stack after a sequence of events.
pub open spec fn stack_after<'s, C>(stack: Seq<C>, events: Seq<TrackData<'s, C>>) -> Seq<C>
    decreases events.len(),
{
    if events.len() == 0 {
        stack
    } else {
        next_stack(stack_after(stack, events.drop_last()), events.last())
    }
}

/// Entering a function and then finishing it with `Track.ok` (an ok event
/// and the exit) or `Track.err` (a failure and the exit) leaves the call
/// stack as it was before the enter; so does a whole tracked call.
pub proof fn law_enter_finish_restores_stack<'s, C: Code>(
    t0: StdTracker<'s, C>,
    t1: StdTracker<'s, C>,
    t2: StdTracker<'s, C>,
    func: C,
    span: Span<'s>,
    last: TrackData<'s, C>,
)
    requires
        tracked_by(t0, t1, TrackData::Enter(func, span)),
        tracked_pair(t1, t2, last, TrackData::Exit()),
        !(last is Enter),
        !(last is Exit),
    ensures
        t2.stack() == t0.stack(),
        tracked_triple(t0, t2, TrackData::Enter(func, span), last, TrackData::Exit()),
{
    assert(t0.stack().push(func).drop_last() == t0.stack());
    lemma_tracked_triple(t0, t1, t2, TrackData::Enter(func, span), last, TrackData::Exit());
}

/// The call stack after replaying the recorded events from an empty stack.
pub open spec fn replay<'s, C>(tracks: Seq<TrackedData<'s, C>>) -> Seq<C>
    decreases tracks.len(),
{
    if tracks.len() == 0 {
        Seq::empty()
    } else {
        next_stack(replay(tracks.drop_last()), tracks.last().track)
    }
}

/// The records are what a tracker that started empty recorded: each event
/// could be recorded with the call stack of the events before it, and is
/// recorded with that stack.
pub open spec fn consistent<'s, C>(tracks: Seq<TrackedData<'s, C>>) -> bool {
    forall|k: int| 0 <= k < tracks.len() ==> {
        let before = replay(#[trigger] tracks.subrange(0, k));
        &&& can_record(before, tracks[k].track)
        &&& is_record_of(tracks[k], before, tracks[k].track)
    }
}

impl<'s, C: Code> StdTracker<'s, C> {
    /// The tracker's state is what its records say: the call stack is the
    /// replay of the records, and the records are consistent.
    pub open spec fn well_formed(self) -> bool {
        self.stack() == replay(self.tracks()) && consistent(self.tracks())
    }
}

/// A new tracker is well formed.
pub proof fn law_empty_well_formed<'s, C: Code>(t: StdTracker<'s, C>)
    requires
        t.stack() == Seq::<C>::empty(),
        t.tracks() == Seq::<TrackedData<'s, C>>::empty(),
    ensures
        t.well_formed(),
{
}

/// Recording an event keeps the tracker well formed.
pub proof fn law_tracked_by_well_formed<'s, C: Code>(old: StdTracker<'s, C>, new: StdTracker<'s, C>, data: TrackData<'s, C>)
    requires
        old.well_formed(),
        can_record(old.stack(), data),
        tracked_by(old, new, data),
    ensures
        new.well_formed(),
{
    let n = old.tracks().len();
    let t = new.tracks();
    assert(t.drop_last() == old.tracks());
    assert(t.last().track == data);
    assert(replay(t) == next_stack(replay(old.tracks()), data));
    assert forall|k: int| 0 <= k < t.len() implies {
        let before = replay(#[trigger] t.subrange(0, k));
        &&& can_record(before, t[k].track)
        &&& is_record_of(t[k], before, t[k].track)
    } by {
        if k < n {
            assert(t.subrange(0, k) == old.tracks().subrange(0, k));
            assert(t[k] == old.tracks()[k]);
        } else {
            assert(t.subrange(0, k) == old.tracks());
        }
    }
}

/// The indentation of each record in the debug output of the tracks: one
/// level deeper for each entered function, counting the record itself if it
/// is an `Enter`, one level less after each `Exit`.
pub open spec fn indent_at<'s, C>(tracks: Seq<TrackedData<'s, C>>, k: int) -> int
    decreases k, 0int,
{
    if k < 0 {
        0
    } else {
        let before = if k == 0 { 0 } else { indent_after(tracks, k - 1) };
        if tracks[k].track is Enter { before + 1 } else { before }
    }
}

/// The indentation after the record `k`: as at the record, and one less
/// after an `Exit`.
pub open spec fn indent_after<'s, C>(tracks: Seq<TrackedData<'s, C>>, k: int) -> int
    decreases k, 1int,
{
    if k < 0 {
        0
    } else if tracks[k].track is Exit {
        indent_at(tracks, k) - 1
    } else {
        indent_at(tracks, k)
    }
}

/// The indentation of the debug output is the depth of the call stack: for
/// consistent records, the indentation after a record is the depth of the
/// stack after it, and every record but an `Exit` is indented by the depth
/// of its own call stack.
pub proof fn law_indent_is_depth<'s, C>(tracks: Seq<TrackedData<'s, C>>, k: int)
    requires
        consistent(tracks),
        0 <= k < tracks.len(),
    ensures
        indent_after(tracks, k) == replay(tracks.subrange(0, k + 1)).len(),
        !(tracks[k].track is Exit) ==> indent_at(tracks, k) == tracks[k].callstack@.len(),
    decreases k,
{
    let before = replay(tracks.subrange(0, k));
    assert(can_record(before, tracks[k].track) && is_record_of(tracks[k], before, tracks[k].track));
    assert(tracks.subrange(0, k + 1).drop_last() == tracks.subrange(0, k));
    assert(tracks.subrange(0, k + 1).last() == tracks[k]);
    if k > 0 {
        law_indent_is_depth(tracks, k - 1);
        assert(indent_after(tracks, k - 1) == before.len());
    } else {
        assert(tracks.subrange(0, 0) == Seq::<TrackedData<'s, C>>::empty());
    }
}

/// The indentation of each record in the debug output of the tracks.
pub fn track_depths<'s, C: Code>(tracks: &Vec<TrackedData<'s, C>>) -> (r: Vec<usize>)
    requires
        forall|k: int| 0 <= k < tracks@.len() ==> 0 <= #[trigger] indent_after(tracks@, k) && indent_at(tracks@, k) < usize::MAX,
    ensures
        r@.len() == tracks@.len(),
        forall|k: int| 0 <= k < tracks@.len() ==> r@[k] == indent_at(tracks@, k),
{
    let mut r: Vec<usize> = Vec::new();
    let mut ind: usize = 0;
    let mut i: usize = 0;
    while i < tracks.len()
        invariant
            0 <= i <= tracks@.len(),
            r@.len() == i,
            forall|k: int| 0 <= k < tracks@.len() ==> 0 <= #[trigger] indent_after(tracks@, k) && indent_at(tracks@, k) < usize::MAX,
            forall|k: int| 0 <= k < i ==> r@[k] == indent_at(tracks@, k),
            ind == if i == 0 { 0 } else { indent_after(tracks@, i - 1) },
        decreases tracks@.len() - i,
    {
        assert(0 <= indent_after(tracks@, i as int) && indent_at(tracks@, i as int) < usize::MAX);
        match &tracks[i].track {
            TrackData::Enter(_, _) => {
                ind = ind + 1;
                r.push(ind);
            },
            TrackData::Exit() => {
                r.push(ind);
                ind = ind - 1;
            },
            _ => {
                r.push(ind);
            },
        }
        i = i + 1;
    }
    r
}

} // verus!
