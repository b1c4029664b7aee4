use vstd::prelude::*;
use vstd::string::*;

verus! {

/// Emitted when the wake phrase is detected.
#[derive(Debug, Clone)]
pub struct WakeEvent<T> {
    /// Name of the model that fired.
    pub model: String,
    /// Classifier score at the trigger.
    pub score: T,
    /// The 16 kHz mono audio held in the pre-roll ring at the trigger, oldest first.
    pub pre_roll: Vec<T>,
    /// Participant/stream identifier, for per-stream meeting use.
    pub stream_id: Option<String>,
}

/// The value of a wake event, as contracts speak of it.
pub struct WakeEventView<T> {
    pub model: Seq<char>,
    pub score: T,
    pub pre_roll: Seq<T>,
    pub stream_id: Option<Seq<char>>,
}

impl<T> View for WakeEvent<T> {
    type V = WakeEventView<T>;

    open spec fn view(&self) -> WakeEventView<T> {
        WakeEventView {
            model: self.model@,
            score: self.score,
            pre_roll: self.pre_roll@,
            stream_id: opt_text(self.stream_id),
        }
    }
}

/// The text of an optional string.
pub open spec fn opt_text(s: Option<String>) -> Option<Seq<char>> {
    match s {
        Some(t) => Some(t@),
        None => None,
    }
}

/// A copy of an optional string.
pub fn copy_opt_string(s: &Option<String>) -> (r: Option<String>)
    ensures
        opt_text(r) == opt_text(*s),
{
    match s {
        Some(t) => Some(t.clone()),
        None => None,
    }
}

/// A copy of a slice of samples.
pub fn copy_samples<T: Copy>(s: &[T]) -> (r: Vec<T>)
    ensures
        r@ == s@,
{
    let mut r: Vec<T> = Vec::new();
    let mut i: usize = 0;
    while i < s.len()
        invariant
            i <= s@.len(),
            r@ == s@.subrange(0, i as int),
        decreases s@.len() - i,
    {
        r.push(s[i]);
        i = i + 1;
    }
    r
}

impl<T: Copy> WakeEvent<T> {
    /// A copy of this event.
    pub fn duplicate(&self) -> (r: WakeEvent<T>)
        ensures
            r@ == self@,
    {
        WakeEvent {
            model: self.model.clone(),
            score: self.score,
            pre_roll: copy_samples(self.pre_roll.as_slice()),
            stream_id: copy_opt_string(&self.stream_id),
        }
    }
}

/// Downstream consumer of detections: the live-LLM boundary.
///
/// A detector calls `on_wake` (carrying the pre-roll) first, then zero or more
/// `on_audio` for the live utterance, then exactly one `on_end`.
pub trait StreamSink<T> {
    fn on_wake(&mut self, event: &WakeEvent<T>);
    fn on_audio(&mut self, frames: &[T]);
    fn on_end(&mut self);
}

/// One call made on a sink, as contracts speak of it.
pub enum SinkCall<T> {
    Wake(WakeEventView<T>),
    Audio(Seq<T>),
    End,
}

/// Where a sink stands after one more call: `Some(true)` inside an utterance
/// (after `on_wake`), `Some(false)` between utterances, `None` once the call
/// order has been broken.
pub open spec fn next_session<T>(open: Option<bool>, call: SinkCall<T>) -> Option<bool> {
    match open {
        None => None,
        Some(inside) => match call {
            SinkCall::Wake(_) => if inside { None } else { Some(true) },
            SinkCall::Audio(frames) => if inside && frames.len() > 0 { Some(true) } else { None },
            SinkCall::End => if inside { Some(false) } else { None },
        },
    }
}

/// Where a sink stands after a sequence of calls, starting between utterances.
/// It is `Some(_)` exactly when the calls follow the order
/// (`on_wake` `on_audio`* `on_end`)* (`on_wake` `on_audio`*)?, with no empty audio.
pub open spec fn session_state<T>(calls: Seq<SinkCall<T>>) -> Option<bool>
    decreases calls.len(),
{
    if calls.len() == 0 {
        Some(false)
    } else {
        next_session(session_state(calls.drop_last()), calls.last())
    }
}

/// One more call moves the session by one step.
pub proof fn lemma_session_push<T>(calls: Seq<SinkCall<T>>, call: SinkCall<T>)
    ensures
        session_state(calls.push(call)) == next_session(session_state(calls), call),
{
    assert(calls.push(call).drop_last() =~= calls);
}

/// `n`, capped at `usize::MAX`.
pub open spec fn cap_usize(n: nat) -> nat {
    if n <= usize::MAX {
        n
    } else {
        usize::MAX as nat
    }
}

/// A sink together with the record of every call made on it through this
/// handle, in order.
pub struct SinkPort<T, S> {
    sink: S,
    received: Ghost<Seq<SinkCall<T>>>,
}

impl<T: Copy, S: StreamSink<T>> SinkPort<T, S> {
    pub closed spec fn received(&self) -> Seq<SinkCall<T>> {
        self.received@
    }

    pub closed spec fn sink(&self) -> S {
        self.sink
    }

    pub fn new(sink: S) -> (r: Self)
        ensures
            r.received().len() == 0,
            r.sink() == sink,
    {
        SinkPort { sink, received: Ghost(Seq::empty()) }
    }

    pub fn wake(&mut self, event: &WakeEvent<T>)
        ensures
            final(self).received() == old(self).received().push(SinkCall::Wake(event@)),
    {
        self.sink.on_wake(event);
        proof {
            self.received@ = self.received@.push(SinkCall::Wake(event@));
        }
    }

    pub fn audio(&mut self, frames: &[T])
        ensures
            final(self).received() == old(self).received().push(SinkCall::Audio(frames@)),
    {
        self.sink.on_audio(frames);
        proof {
            self.received@ = self.received@.push(SinkCall::Audio(frames@));
        }
    }

    pub fn end(&mut self)
        ensures
            final(self).received() == old(self).received().push(SinkCall::End),
    {
        self.sink.on_end();
        proof {
            self.received@ = self.received@.push(SinkCall::End);
        }
    }

    /// The sink.
    pub fn get(&self) -> (s: &S)
        ensures
            *s == self.sink(),
    {
        &self.sink
    }

    /// The sink, given back.
    pub fn into_inner(self) -> (s: S)
        ensures
            s == self.sink(),
    {
        self.sink
    }
}

/// Test sink: records every call.
pub struct VecSink<T> {
    pub wakes: Vec<WakeEvent<T>>,
    pub audio: Vec<T>,
    pub ends: usize,
}

impl<T> VecSink<T> {
    /// An empty recorder.
    pub fn new() -> (s: Self)
        ensures
            s.wakes@.len() == 0,
            s.audio@.len() == 0,
            s.ends == 0,
    {
        VecSink { wakes: Vec::new(), audio: Vec::new(), ends: 0 }
    }
}

impl<T> Default for VecSink<T> {
    fn default() -> (s: Self)
        ensures
            s.wakes@.len() == 0,
            s.audio@.len() == 0,
            s.ends == 0,
    {
        VecSink::new()
    }
}

impl<T: Copy> StreamSink<T> for VecSink<T> {
    fn on_wake(&mut self, event: &WakeEvent<T>)
        ensures
            final(self).wakes@.len() == old(self).wakes@.len() + 1,
            forall|i: int| 0 <= i < old(self).wakes@.len() ==> #[trigger] final(self).wakes@[i] == old(self).wakes@[i],
            final(self).wakes@.last()@ == event@,
            final(self).audio@ == old(self).audio@,
            final(self).ends == old(self).ends,
    {
        self.wakes.push(event.duplicate());
    }

    fn on_audio(&mut self, frames: &[T])
        ensures
            final(self).wakes@ == old(self).wakes@,
            final(self).audio@ == old(self).audio@ + frames@,
            final(self).ends == old(self).ends,
    {
        let mut i: usize = 0;
        let ghost start = self.audio@;
        while i < frames.len()
            invariant
                i <= frames@.len(),
                self.audio@ == start + frames@.subrange(0, i as int),
                self.wakes@ == old(self).wakes@,
                self.ends == old(self).ends,
            decreases frames@.len() - i,
        {
            self.audio.push(frames[i]);
            i = i + 1;
        }
        assert(frames@.subrange(0, frames@.len() as int) == frames@);
    }

    fn on_end(&mut self)
        ensures
            final(self).wakes@ == old(self).wakes@,
            final(self).audio@ == old(self).audio@,
            final(self).ends == cap_usize((old(self).ends + 1) as nat),
    {
        self.ends = self.ends.saturating_add(1);
    }
}

/// A sink that tracks, per participant, how much live audio the current
/// utterance has streamed; the meeting service reports its figures.
pub struct LogSink {
    pub participant: String,
    pub streamed: usize,
}

impl LogSink {
    /// A sink for `participant` with nothing streamed yet.
    pub fn new(participant: &str) -> (s: Self)
        ensures
            s.participant@ == participant@,
            s.streamed == 0,
    {
        LogSink { participant: participant.to_owned(), streamed: 0 }
    }
}

impl<T> StreamSink<T> for LogSink {
    fn on_wake(&mut self, event: &WakeEvent<T>)
        ensures
            final(self).participant == old(self).participant,
            final(self).streamed == 0,
    {
        self.streamed = 0;
    }

    fn on_audio(&mut self, frames: &[T])
        ensures
            final(self).participant == old(self).participant,
            final(self).streamed == cap_usize((old(self).streamed + frames@.len()) as nat),
    {
        self.streamed = self.streamed.saturating_add(frames.len());
    }

    fn on_end(&mut self)
        ensures
            final(self).participant == old(self).participant,
            final(self).streamed == old(self).streamed,
    {
    }
}

} // verus!
