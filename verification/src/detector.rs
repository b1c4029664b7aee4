use vstd::prelude::*;
use crate::chunks::{chunks_of, flatten, leftover, lemma_chunks_partition, take_chunks};
use crate::config::{ms_to_samples, Config};
use crate::engine::{ResampleStep, Resample, Resampling, VadEngine, VadStep, VoiceActivity, WakeEngine, WakeStep, WakeWord};
use crate::error::Error;
use crate::ring::{last_n, lemma_ring_holds_latest, ring_push_all, PreRollRing};
use crate::sink::{copy_opt_string, lemma_session_push, opt_text, session_state, SinkCall, SinkPort, StreamSink, WakeEvent, WakeEventView};
use vstd::string::*;

verus! {

/// `a + b`, capped at `usize::MAX`.
pub open spec fn sat_add(a: nat, b: nat) -> nat {
    if a + b <= usize::MAX {
        a + b
    } else {
        usize::MAX as nat
    }
}

/// `a - b`, floored at zero.
pub open spec fn sat_sub(a: nat, b: nat) -> nat {
    if a >= b {
        (a - b) as nat
    } else {
        0
    }
}

/// The number of samples in a sequence of classified chunks.
pub open spec fn classified<T>(steps: Seq<VadStep<T>>) -> nat
    decreases steps.len(),
{
    if steps.len() == 0 {
        0
    } else {
        classified(steps.drop_last()) + steps.last().chunk.len()
    }
}

/// The samples in the trailing run of non-voice chunks of `steps` (capped at
/// `usize::MAX`): the silence heard since the last voice.
pub open spec fn trailing_silence<T>(steps: Seq<VadStep<T>>) -> nat
    decreases steps.len(),
{
    if steps.len() == 0 {
        0
    } else if steps.last().voice {
        0
    } else {
        sat_add(trailing_silence(steps.drop_last()), steps.last().chunk.len())
    }
}

/// One push as a detector's contract records it: the chunk sizes the engines
/// reported at its start, the 16 kHz mono samples pushed, and the chunks each
/// engine was fed together with what it answered.
pub struct PushRecord<T> {
    pub vad_size: nat,
    pub wake_size: nat,
    pub samples: Seq<T>,
    pub vads: Seq<VadStep<T>>,
    pub wakes: Seq<WakeStep<T>>,
}

/// The samples of a run of pushes, in order.
pub open spec fn run_samples<T>(pushes: Seq<PushRecord<T>>) -> Seq<T>
    decreases pushes.len(),
{
    if pushes.len() == 0 {
        Seq::empty()
    } else {
        run_samples(pushes.drop_last()) + pushes.last().samples
    }
}

/// The state of a detector, as contracts speak of it.
#[verifier::ext_equal]
pub struct DetectorView<T> {
    /// Pre-roll ring contents, oldest first, and its capacity.
    pub ring: Seq<T>,
    pub ring_capacity: nat,
    /// Chunk sizes the two engines reported at the latest push.
    pub vad_size: nat,
    pub wake_size: nat,
    /// End-of-utterance silence and cooldown lengths, in samples.
    pub end_silence: nat,
    pub cooldown_len: nat,
    /// Samples waiting for a complete chunk, per engine.
    pub vad_q: Seq<T>,
    pub wake_q: Seq<T>,
    /// The two-state machine: `streaming` is false while listening.
    pub streaming: bool,
    pub voice: bool,
    pub silence_run: nat,
    pub cooldown: nat,
    pub stream_id: Option<Seq<char>>,
    pub last_vad_prob: T,
    pub last_wake_score: T,
    /// The wake model's name.
    pub model: Seq<char>,
    /// Every chunk each engine has been fed, with the value and the decision
    /// it returned.
    pub vad_log: Seq<VadStep<T>>,
    pub wake_log: Seq<WakeStep<T>>,
    /// Every call made on the sink, in order.
    pub calls: Seq<SinkCall<T>>,
    /// Every block handed to the resampler, with what it returned.
    pub resample_log: Seq<ResampleStep<T>>,
    /// Every 16 kHz mono sample pushed so far, in order.
    pub pushed: Seq<T>,
    /// How many VAD chunks had been classified at the latest trigger, and at
    /// the latest end of utterance; and the cooldown set at that end (zero
    /// before any).
    pub trigger_mark: nat,
    pub end_mark: nat,
    pub cooldown_base: nat,
}

impl<T> DetectorView<T> {
    /// The detector after one VAD chunk: voice resets the silence run, silence
    /// extends it, and the cooldown runs down by one chunk either way.
    pub open spec fn after_vad(self, s: VadStep<T>) -> Self {
        DetectorView {
            voice: s.voice,
            silence_run: if s.voice { 0 } else { sat_add(self.silence_run, self.vad_size) },
            cooldown: sat_sub(self.cooldown, self.vad_size),
            last_vad_prob: s.prob,
            vad_log: self.vad_log.push(s),
            ..self
        }
    }

    pub open spec fn after_vads(self, steps: Seq<VadStep<T>>) -> Self
        decreases steps.len(),
    {
        if steps.len() == 0 {
            self
        } else {
            self.after_vads(steps.drop_last()).after_vad(steps.last())
        }
    }

    /// A trigger is accepted only while listening and past the cooldown.
    pub open spec fn armed(self) -> bool {
        !self.streaming && self.cooldown == 0
    }

    /// The detector after one wake chunk: an armed detector whose engine fires
    /// delivers the wake event carrying the pre-roll, drops the samples still
    /// queued for the wake engine, and starts streaming.
    pub open spec fn after_wake(self, s: WakeStep<T>) -> Self {
        let d = DetectorView { last_wake_score: s.score, wake_log: self.wake_log.push(s), ..self };
        if self.armed() && s.fires {
            DetectorView {
                streaming: true,
                silence_run: 0,
                trigger_mark: self.vad_log.len(),
                wake_q: Seq::empty(),
                calls: d.calls.push(SinkCall::Wake(WakeEventView {
                    model: self.model,
                    score: s.score,
                    pre_roll: self.ring,
                    stream_id: self.stream_id,
                })),
                ..d
            }
        } else {
            d
        }
    }

    pub open spec fn after_wakes(self, steps: Seq<WakeStep<T>>) -> Self
        decreases steps.len(),
    {
        if steps.len() == 0 {
            self
        } else {
            self.after_wakes(steps.drop_last()).after_wake(steps.last())
        }
    }

    /// The detector with the engines' chunk sizes, as read at a push.
    pub open spec fn sized(self, vad_size: nat, wake_size: nat) -> Self {
        DetectorView { vad_size, wake_size, ..self }
    }

    /// The samples of a push enter the ring and both queues.
    pub open spec fn fed(self, samples: Seq<T>) -> Self {
        DetectorView {
            ring: ring_push_all(self.ring, samples, self.ring_capacity),
            vad_q: leftover(self.vad_q + samples, self.vad_size),
            wake_q: leftover(self.wake_q + samples, self.wake_size),
            pushed: self.pushed + samples,
            ..self
        }
    }

    /// The end of a push: while streaming, the whole push is forwarded as live
    /// audio, and a long enough silence ends the utterance and starts the
    /// cooldown.
    pub open spec fn finish_push(self, samples: Seq<T>) -> Self {
        if self.streaming {
            let d = if samples.len() > 0 {
                DetectorView { calls: self.calls.push(SinkCall::Audio(samples)), ..self }
            } else {
                self
            };
            if d.silence_run >= d.end_silence {
                DetectorView {
                    calls: d.calls.push(SinkCall::End),
                    streaming: false,
                    cooldown: d.cooldown_len,
                    silence_run: 0,
                    end_mark: d.vad_log.len(),
                    cooldown_base: d.cooldown_len,
                    ..d
                }
            } else {
                d
            }
        } else {
            self
        }
    }

    /// The detector after a push of 16 kHz mono `samples`, given what the
    /// engines answered for the chunks they were fed.
    pub open spec fn after_push(self, samples: Seq<T>, vads: Seq<VadStep<T>>, wakes: Seq<WakeStep<T>>) -> Self {
        self.fed(samples).after_vads(vads).after_wakes(wakes).finish_push(samples)
    }

    /// What holds of the detector's history at every step: the ring holds the
    /// latest `ring_capacity` samples ever pushed; the cooldown is what is
    /// left of the one set at the latest end of utterance after the samples
    /// classified since; and while streaming, the silence run is the silence
    /// heard since the trigger.
    pub open spec fn keeps_history(self) -> bool {
        &&& self.ring == last_n(self.pushed, self.ring_capacity)
        &&& self.trigger_mark <= self.vad_log.len()
        &&& self.end_mark <= self.vad_log.len()
        &&& self.cooldown == sat_sub(self.cooldown_base, classified(self.vad_log.skip(self.end_mark as int)))
        &&& self.streaming ==> self.silence_run == trailing_silence(self.vad_log.skip(self.trigger_mark as int))
    }

    /// The record of a push of `samples` that took this detector to `after`:
    /// the chunk sizes `after` records, and what the engines' logs gained.
    pub open spec fn push_record(self, after: Self, samples: Seq<T>) -> PushRecord<T> {
        PushRecord {
            vad_size: after.vad_size,
            wake_size: after.wake_size,
            samples,
            vads: after.vad_log.skip(self.vad_log.len() as int),
            wakes: after.wake_log.skip(self.wake_log.len() as int),
        }
    }

    /// `after` is this detector after a push of `samples`, with the engines'
    /// chunk sizes being those `after` records and their answers those its
    /// logs gained.
    pub open spec fn pushed_to(self, after: Self, samples: Seq<T>) -> bool {
        let rec = self.push_record(after, samples);
        &&& after.vad_log.len() >= self.vad_log.len()
        &&& after.wake_log.len() >= self.wake_log.len()
        &&& self.can_step(rec)
        &&& after == self.step(rec)
    }

    /// The detector after one recorded push.
    pub open spec fn step(self, p: PushRecord<T>) -> Self {
        self.sized(p.vad_size, p.wake_size).after_push(p.samples, p.vads, p.wakes)
    }

    /// The recorded push fed the engines as a detector feeds them.
    pub open spec fn can_step(self, p: PushRecord<T>) -> bool {
        self.sized(p.vad_size, p.wake_size).feeds(p.samples, p.vads, p.wakes)
    }

    /// The detector after a run of recorded pushes, in order.
    pub open spec fn run(self, pushes: Seq<PushRecord<T>>) -> Self
        decreases pushes.len(),
    {
        if pushes.len() == 0 {
            self
        } else {
            self.run(pushes.drop_last()).step(pushes.last())
        }
    }

    /// Every push of the run fed the engines as a detector feeds them.
    pub open spec fn can_run(self, pushes: Seq<PushRecord<T>>) -> bool {
        forall|i: int| 0 <= i < pushes.len() ==> #[trigger] self.run(pushes.take(i)).can_step(pushes[i])
    }

    /// The chunks that a push feeds to the engines: every complete VAD chunk,
    /// and the complete wake chunks in order up to and including the first one
    /// that triggers (all of them when none does).
    pub open spec fn feeds(self, samples: Seq<T>, vads: Seq<VadStep<T>>, wakes: Seq<WakeStep<T>>) -> bool {
        let vchunks = chunks_of(self.vad_q + samples, self.vad_size);
        let wchunks = chunks_of(self.wake_q + samples, self.wake_size);
        let mid = self.fed(samples).after_vads(vads);
        &&& vads.len() == vchunks.len()
        &&& forall|i: int| 0 <= i < vads.len() ==> #[trigger] vads[i].chunk == vchunks[i]
        &&& wakes.len() <= wchunks.len()
        &&& forall|i: int| 0 <= i < wakes.len() ==> #[trigger] wakes[i].chunk == wchunks[i]
        &&& forall|i: int| 0 <= i < wakes.len() - 1 ==> !(mid.armed() && #[trigger] wakes[i].fires)
        &&& wakes.len() < wchunks.len() ==> wakes.len() > 0 && mid.armed() && wakes.last().fires
    }
}

/// Wake-word detector state machine over 16 kHz mono samples of type `T`.
///
/// The resampler, the engines and the sink are held through handles that
/// record every call made on them, so that the detector's contract speaks of
/// what they were actually handed and what they answered.
pub struct Detector<T, R, V, W, S> {
    cfg: Config<T>,
    resampler: Resampling<T, R>,
    ring: PreRollRing<T>,
    vad: VadEngine<T, V>,
    wake: WakeEngine<T, W>,
    sink: SinkPort<T, S>,
    vad_size: usize,
    wake_size: usize,
    vad_q: Vec<T>,
    wake_q: Vec<T>,
    streaming: bool,
    voice: bool,
    silence_run: usize,
    cooldown: usize,
    stream_id: Option<String>,
    last_vad_prob: T,
    last_wake_score: T,
    pushed: Ghost<Seq<T>>,
    trigger_mark: Ghost<nat>,
    end_mark: Ghost<nat>,
    cooldown_base: Ghost<nat>,
}

impl<T: Copy, R: Resample<T>, V: VoiceActivity<T>, W: WakeWord<T>, S: StreamSink<T>> View for Detector<T, R, V, W, S> {
    type V = DetectorView<T>;

    closed spec fn view(&self) -> DetectorView<T> {
        DetectorView {
            ring: self.ring@,
            ring_capacity: self.ring.capacity(),
            vad_size: self.vad_size as nat,
            wake_size: self.wake_size as nat,
            end_silence: ms_to_samples(self.cfg.end_silence_ms),
            cooldown_len: ms_to_samples(self.cfg.cooldown_ms),
            vad_q: self.vad_q@,
            wake_q: self.wake_q@,
            streaming: self.streaming,
            voice: self.voice,
            silence_run: self.silence_run as nat,
            cooldown: self.cooldown as nat,
            stream_id: opt_text(self.stream_id),
            last_vad_prob: self.last_vad_prob,
            last_wake_score: self.last_wake_score,
            model: self.wake.name(),
            vad_log: self.vad.heard(),
            wake_log: self.wake.heard(),
            calls: self.sink.received(),
            resample_log: self.resampler.log(),
            pushed: self.pushed@,
            trigger_mark: self.trigger_mark@,
            end_mark: self.end_mark@,
            cooldown_base: self.cooldown_base@,
        }
    }
}

impl<T: Copy + Default, R: Resample<T>, V: VoiceActivity<T>, W: WakeWord<T>, S: StreamSink<T>> Detector<T, R, V, W, S> {
    /// Internal consistency: the ring is sound and sized from the pre-roll
    /// setting, the history holds (`keeps_history`), and the calls made on the
    /// sink follow the on_wake / on_audio / on_end order, ending inside an
    /// utterance exactly when the detector is streaming.
    pub closed spec fn wf(&self) -> bool {
        &&& self.ring.wf()
        &&& self.ring.capacity() == if ms_to_samples(self.cfg.pre_roll_ms) == 0 { 1 } else { ms_to_samples(self.cfg.pre_roll_ms) }
        &&& self@.keeps_history()
        &&& session_state(self.sink.received()) == Some(self.streaming)
    }

    /// The configuration the detector was built with.
    pub closed spec fn config(&self) -> Config<T> {
        self.cfg
    }

    /// The sink the detector reports to.
    pub closed spec fn spec_sink(&self) -> S {
        self.sink.sink()
    }

    /// A detector over the given engines, listening, with an empty pre-roll
    /// ring of `pre_roll_samples()` (at least one) samples; the latest
    /// probability and score start as `T::default()`. The wake model's name is
    /// asked for here.
    pub fn with_engines(config: Config<T>, resampler: R, vad: V, wake: W, sink: S) -> (d: Self)
        ensures
            d.wf(),
            d@.keeps_history(),
            d.config() == config,
            d.spec_sink() == sink,
            d@.ring.len() == 0,
            d@.ring_capacity == if ms_to_samples(config.pre_roll_ms) == 0 { 1 } else { ms_to_samples(config.pre_roll_ms) },
            d@.end_silence == ms_to_samples(config.end_silence_ms),
            d@.cooldown_len == ms_to_samples(config.cooldown_ms),
            d@.vad_q.len() == 0,
            d@.wake_q.len() == 0,
            !d@.streaming,
            !d@.voice,
            d@.silence_run == 0,
            d@.cooldown == 0,
            d@.stream_id is None,
            call_ensures(T::default, (), d@.last_vad_prob),
            d@.last_wake_score == d@.last_vad_prob,
            d@.vad_log.len() == 0,
            d@.wake_log.len() == 0,
            d@.calls.len() == 0,
            d@.resample_log.len() == 0,
            d@.pushed.len() == 0,
            d@.trigger_mark == 0,
            d@.end_mark == 0,
            d@.cooldown_base == 0,
    {
        let ring = PreRollRing::new(config.pre_roll_samples());
        let zero = T::default();
        let d = Detector {
            cfg: config,
            resampler: Resampling::new(resampler),
            ring,
            vad: VadEngine::new(vad),
            wake: WakeEngine::new(wake),
            sink: SinkPort::new(sink),
            vad_size: 0,
            wake_size: 0,
            vad_q: Vec::new(),
            wake_q: Vec::new(),
            streaming: false,
            voice: false,
            silence_run: 0,
            cooldown: 0,
            stream_id: None,
            last_vad_prob: zero,
            last_wake_score: zero,
            pushed: Ghost(Seq::empty()),
            trigger_mark: Ghost(0),
            end_mark: Ghost(0),
            cooldown_base: Ghost(0),
        };
        assert(d@.vad_log.skip(0) =~= Seq::<VadStep<T>>::empty());
        assert(classified(Seq::<VadStep<T>>::empty()) == 0);
        assert(d@.ring =~= last_n(Seq::<T>::empty(), d@.ring_capacity));
        d
    }

    /// Feeds 16 kHz mono samples: they enter the pre-roll ring and both engine
    /// queues; every complete VAD chunk is classified; complete wake chunks are
    /// scored in order until one triggers; and while streaming the whole push
    /// is forwarded to the sink, ending the utterance after enough silence.
    /// The chunk sizes are those the engines report at the start of the push.
    /// The push is recorded as `push_record`, so that what `history` states
    /// of runs of recorded pushes holds of the detector's pushes.
    pub fn push_resampled(&mut self, samples: &[T])
        requires
            old(self).wf(),
        ensures
            final(self).wf(),
            final(self)@.keeps_history(),
            final(self).config() == old(self).config(),
            old(self)@.pushed_to(final(self)@, samples@),
            session_state(final(self)@.calls) == Some(final(self)@.streaming),
            final(self)@.resample_log == old(self)@.resample_log,
            final(self)@.vad_log.len() > old(self)@.vad_log.len() ==> final(self)@.last_vad_prob == final(self)@.vad_log.last().prob,
            final(self)@.vad_log.len() == old(self)@.vad_log.len() ==> final(self)@.last_vad_prob == old(self)@.last_vad_prob,
            final(self)@.wake_log.len() > old(self)@.wake_log.len() ==> final(self)@.last_wake_score == final(self)@.wake_log.last().score,
            final(self)@.wake_log.len() == old(self)@.wake_log.len() ==> final(self)@.last_wake_score == old(self)@.last_wake_score,
    {
        self.vad_size = self.vad.chunk_size();
        self.wake_size = self.wake.chunk_size();
        let ghost d0 = self@;
        assert(d0 =~= old(self)@.sized(self.vad_size as nat, self.wake_size as nat));
        self.ring.push_all(samples);
        let vad_chunks = take_chunks(&mut self.vad_q, samples, self.vad_size);
        let wake_chunks = take_chunks(&mut self.wake_q, samples, self.wake_size);
        self.pushed = Ghost(self.pushed@ + samples@);
        let ghost d1 = self@;
        assert(d1 =~= d0.fed(samples@));

        let ghost mut vads: Seq<VadStep<T>> = Seq::empty();
        let mut k: usize = 0;
        while k < vad_chunks.len()
            invariant
                k <= vad_chunks@.len(),
                vads.len() == k,
                forall|j: int| 0 <= j < k ==> #[trigger] vads[j].chunk == vad_chunks@[j]@,
                self@ == d1.after_vads(vads),
                self@.vad_log == d1.vad_log + vads,
                d1.vad_log == d0.vad_log,
                self@.wake_log == d0.wake_log,
                self.ring.wf(),
                self@.ring == d1.ring,
                self.ring.capacity() == d1.ring_capacity,
                self@.calls == d1.calls,
                self.streaming == d1.streaming,
                self.cfg == old(self).cfg,
                self.resampler == old(self).resampler,
                self.sink.sink() == old(self).sink.sink(),
                self.vad_size == d1.vad_size,
                self.wake_size == d1.wake_size,
            decreases vad_chunks@.len() - k,
        {
            let ghost before = self@;
            let (prob, voice) = self.vad.classify(vad_chunks[k].as_slice(), &self.cfg.vad_threshold);
            let ghost step = VadStep { chunk: vad_chunks@[k as int]@, prob, voice };
            self.voice = voice;
            if voice {
                self.silence_run = 0;
            } else {
                self.silence_run = self.silence_run.saturating_add(self.vad_size);
            }
            self.cooldown = self.cooldown.saturating_sub(self.vad_size);
            self.last_vad_prob = prob;
            proof {
                let prev = vads;
                vads = vads.push(step);
                assert(vads.drop_last() =~= prev);
                assert(self@.vad_log =~= d1.vad_log + vads);
                assert(self@ =~= before.after_vad(step));
            }
            k = k + 1;
        }

        let ghost d2 = self@;
        let ghost mut wakes: Seq<WakeStep<T>> = Seq::empty();
        let mut triggered = false;
        let mut k: usize = 0;
        while k < wake_chunks.len() && !triggered
            invariant
                k <= wake_chunks@.len(),
                wakes.len() == k,
                forall|j: int| 0 <= j < k ==> #[trigger] wakes[j].chunk == wake_chunks@[j]@,
                self@ == d2.after_wakes(wakes),
                self@.wake_log == d2.wake_log + wakes,
                d2.wake_log == d0.wake_log,
                self@.vad_log == d0.vad_log + vads,
                self.vad_size == d0.vad_size,
                self.wake_size == d0.wake_size,
                self.ring.wf(),
                self.ring.capacity() == d2.ring_capacity,
                self.cfg == old(self).cfg,
                self.resampler == old(self).resampler,
                session_state(self.sink.received()) == Some(self.streaming),
                !triggered ==> self.streaming == d2.streaming && self.cooldown == d2.cooldown,
                !triggered ==> forall|j: int| 0 <= j < k ==> !(d2.armed() && #[trigger] wakes[j].fires),
                triggered ==> k > 0 && d2.armed() && wakes.last().fires,
                triggered ==> forall|j: int| 0 <= j < k - 1 ==> !(d2.armed() && #[trigger] wakes[j].fires),
            decreases wake_chunks@.len() - k,
        {
            let ghost before = self@;
            let (score, fires) = self.wake.score(wake_chunks[k].as_slice(), &self.cfg.wake_threshold);
            let ghost step = WakeStep { chunk: wake_chunks@[k as int]@, score, fires };
            self.last_wake_score = score;
            if !self.streaming && self.cooldown == 0 && fires {
                let event = WakeEvent {
                    model: self.wake.model_name(),
                    score,
                    pre_roll: self.ring.snapshot(),
                    stream_id: copy_opt_string(&self.stream_id),
                };
                proof {
                    lemma_session_push(self.sink.received(), SinkCall::Wake(event@));
                }
                self.sink.wake(&event);
                self.wake_q.clear();
                self.streaming = true;
                self.silence_run = 0;
                self.trigger_mark = Ghost(self@.vad_log.len());
                triggered = true;
            }
            proof {
                let prev = wakes;
                wakes = wakes.push(step);
                assert(wakes.drop_last() =~= prev);
                assert(self@.wake_log =~= d2.wake_log + wakes);
                assert(self@ =~= before.after_wake(step));
            }
            k = k + 1;
        }

        let ghost d3 = self@;
        if self.streaming {
            if samples.len() > 0 {
                proof {
                    lemma_session_push(self.sink.received(), SinkCall::Audio(samples@));
                }
                self.sink.audio(samples);
            }
            if self.silence_run >= self.cfg.end_silence_samples() {
                proof {
                    lemma_session_push(self.sink.received(), SinkCall::End);
                }
                self.sink.end();
                self.streaming = false;
                self.cooldown = self.cfg.cooldown_samples();
                self.silence_run = 0;
                self.end_mark = Ghost(self@.vad_log.len());
                self.cooldown_base = Ghost(self.cooldown as nat);
            }
        }
        proof {
            assert(self@ =~= d3.finish_push(samples@));
            assert(self@.vad_log.skip(d0.vad_log.len() as int) =~= vads);
            assert(self@.wake_log.skip(d0.wake_log.len() as int) =~= wakes);
            lemma_push_keeps_history(d0, samples@, vads, wakes);
            lemma_latest_readouts(d0, samples@, vads, wakes);
            lemma_vads_keep(d0.fed(samples@), vads);
        }
    }

    /// Feeds interleaved input audio: the resampler is handed it, and its
    /// 16 kHz mono output is pushed as by `push_resampled`. The push fails
    /// exactly when the resampler fails, with the resampler's error, and then
    /// nothing but the resampler's record changes.
    pub fn push(&mut self, interleaved: &[T]) -> (r: Result<(), Error>)
        requires
            old(self).wf(),
        ensures
            final(self).wf(),
            final(self)@.keeps_history(),
            final(self).config() == old(self).config(),
            final(self)@.resample_log.len() == old(self)@.resample_log.len() + 1,
            final(self)@.resample_log.last().input == interleaved@,
            ({
                let step = final(self)@.resample_log.last();
                let start = DetectorView { resample_log: final(self)@.resample_log, ..old(self)@ };
                match step.output {
                    Err(e) => r == Err::<(), Error>(e) && final(self)@ == start,
                    Ok(samples) => r is Ok && start.pushed_to(final(self)@, samples),
                }
            }),
            session_state(final(self)@.calls) == Some(final(self)@.streaming),
    {
        let ghost rlog = self.resampler.log();
        let out = self.resampler.process(interleaved);
        let ghost start = self@;
        assert(start.resample_log == old(self)@.resample_log.push(ResampleStep { input: interleaved@, output: crate::engine::result_view(out) }));
        assert(start =~= (DetectorView { resample_log: start.resample_log, ..old(self)@ }));
        match out {
            Err(e) => {
                assert(self@ == start);
                assert(self@.resample_log.len() == old(self)@.resample_log.len() + 1);
                assert(self@.resample_log.last().input == interleaved@);
                Err(e)
            },
            Ok(samples) => {
                self.push_resampled(samples.as_slice());
                assert(start.pushed_to(self@, samples@));
                Ok(())
            },
        }
    }

    /// Sets the participant/stream identifier carried by later wake events.
    pub fn set_stream_id(&mut self, id: Option<String>)
        requires
            old(self).wf(),
        ensures
            final(self).wf(),
            final(self).config() == old(self).config(),
            final(self).spec_sink() == old(self).spec_sink(),
            final(self)@ == (DetectorView { stream_id: opt_text(id), ..old(self)@ }),
    {
        self.stream_id = id;
        assert(self@ =~= (DetectorView { stream_id: opt_text(id), ..old(self)@ }));
    }

    /// The sink the detector reports to.
    pub fn sink(&self) -> (s: &S)
        ensures
            *s == self.spec_sink(),
    {
        self.sink.get()
    }

    /// Consumes the detector, returning its sink.
    pub fn into_sink(self) -> (s: S)
        ensures
            s == self.spec_sink(),
    {
        self.sink.into_inner()
    }

    /// Most recent voice probability (`T::default()` before the first VAD chunk).
    pub fn last_vad_prob(&self) -> (p: T)
        ensures
            p == self@.last_vad_prob,
    {
        self.last_vad_prob
    }

    /// Most recent wake score (`T::default()` before the first wake chunk).
    pub fn last_wake_score(&self) -> (p: T)
        ensures
            p == self@.last_wake_score,
    {
        self.last_wake_score
    }
}

/// The latest `cap` samples of what the latest `cap` samples of `p` are
/// followed by are the latest `cap` samples of `p` followed by it.
pub proof fn lemma_last_n_append<T>(p: Seq<T>, s: Seq<T>, cap: nat)
    requires
        cap >= 1,
    ensures
        last_n(last_n(p, cap) + s, cap) == last_n(p + s, cap),
{
    if p.len() > cap {
        let ps = p + s;
        let q = p.subrange(p.len() - cap, p.len() as int);
        let qs = q + s;
        assert(qs =~= ps.subrange(p.len() - cap, ps.len() as int));
        assert(last_n(qs, cap) =~= last_n(ps, cap));
    }
}

proof fn lemma_classified_push<T>(steps: Seq<VadStep<T>>, s: VadStep<T>)
    ensures
        classified(steps.push(s)) == classified(steps) + s.chunk.len(),
        trailing_silence(steps.push(s)) == if s.voice { 0 } else { sat_add(trailing_silence(steps), s.chunk.len()) },
{
    assert(steps.push(s).drop_last() =~= steps);
}

proof fn lemma_vad_keeps_history<T>(d: DetectorView<T>, s: VadStep<T>)
    requires
        d.keeps_history(),
        s.chunk.len() == d.vad_size,
    ensures
        d.after_vad(s).keeps_history(),
{
    let e = d.after_vad(s);
    assert(e.vad_log.skip(d.end_mark as int) =~= d.vad_log.skip(d.end_mark as int).push(s));
    assert(e.vad_log.skip(d.trigger_mark as int) =~= d.vad_log.skip(d.trigger_mark as int).push(s));
    lemma_classified_push(d.vad_log.skip(d.end_mark as int), s);
    lemma_classified_push(d.vad_log.skip(d.trigger_mark as int), s);
}

proof fn lemma_vads_keep_history<T>(d: DetectorView<T>, vads: Seq<VadStep<T>>)
    requires
        d.keeps_history(),
        forall|i: int| 0 <= i < vads.len() ==> #[trigger] vads[i].chunk.len() == d.vad_size,
    ensures
        d.after_vads(vads).keeps_history(),
    decreases vads.len(),
{
    if vads.len() > 0 {
        let w = vads.drop_last();
        assert forall|i: int| 0 <= i < w.len() implies #[trigger] w[i].chunk.len() == d.vad_size by {
            assert(w[i] == vads[i]);
        }
        lemma_vads_keep_history(d, w);
        lemma_vads_keep(d, w);
        lemma_vad_keeps_history(d.after_vads(w), vads.last());
    }
}

proof fn lemma_wakes_keep_history<T>(d: DetectorView<T>, wakes: Seq<WakeStep<T>>)
    requires
        d.keeps_history(),
    ensures
        d.after_wakes(wakes).keeps_history(),
        d.after_wakes(wakes).vad_log == d.vad_log,
        d.after_wakes(wakes).ring_capacity == d.ring_capacity,
        d.after_wakes(wakes).cooldown_len == d.cooldown_len,
    decreases wakes.len(),
{
    if wakes.len() > 0 {
        lemma_wakes_keep_history(d, wakes.drop_last());
        let p = d.after_wakes(wakes.drop_last());
        assert(p.vad_log.skip(p.vad_log.len() as int) =~= Seq::<VadStep<T>>::empty());
    }
}

/// Every push keeps the detector's history (`keeps_history`): the pre-roll
/// ring always holds the latest samples of everything pushed, the cooldown
/// counts down only by the samples classified since the last end of
/// utterance, and the silence run of an utterance is the silence heard since
/// its trigger, however the pushes are cut.
pub proof fn lemma_push_keeps_history<T>(
    d: DetectorView<T>,
    samples: Seq<T>,
    vads: Seq<VadStep<T>>,
    wakes: Seq<WakeStep<T>>,
)
    requires
        d.keeps_history(),
        d.ring_capacity >= 1,
        d.feeds(samples, vads, wakes),
    ensures
        d.after_push(samples, vads, wakes).keeps_history(),
{
    lemma_post_keeps_history(d, samples, vads, wakes);
    let post = d.fed(samples).after_vads(vads).after_wakes(wakes);
    let e = post.finish_push(samples);
    if post.streaming && e != post {
        let a = if samples.len() > 0 { DetectorView { calls: post.calls.push(SinkCall::Audio(samples)), ..post } } else { post };
        if a.silence_run >= a.end_silence {
            assert(e.vad_log.skip(e.end_mark as int) =~= Seq::<VadStep<T>>::empty());
        }
    }
}

/// Feeding a push and running its engine chunks keeps the detector's
/// history, up to the point where the push is forwarded to the sink.
pub proof fn lemma_post_keeps_history<T>(
    d: DetectorView<T>,
    samples: Seq<T>,
    vads: Seq<VadStep<T>>,
    wakes: Seq<WakeStep<T>>,
)
    requires
        d.keeps_history(),
        d.ring_capacity >= 1,
        d.feeds(samples, vads, wakes),
    ensures
        d.fed(samples).after_vads(vads).after_wakes(wakes).keeps_history(),
{
    let f = d.fed(samples);
    lemma_ring_holds_latest(d.ring, samples, d.ring_capacity);
    lemma_last_n_append(d.pushed, samples, d.ring_capacity);
    assert(f.keeps_history());
    if d.vad_size > 0 {
        lemma_chunks_partition(d.vad_q + samples, d.vad_size);
        assert forall|i: int| 0 <= i < vads.len() implies #[trigger] vads[i].chunk.len() == f.vad_size by {
            assert(vads[i].chunk == chunks_of(d.vad_q + samples, d.vad_size)[i]);
        }
    } else {
        assert(chunks_of(d.vad_q + samples, d.vad_size).len() == 0);
    }
    lemma_vads_keep_history(f, vads);
    let mid = f.after_vads(vads);
    lemma_vads_keep(f, vads);
    lemma_wakes_keep_history(mid, wakes);
}

/// VAD chunks never touch the ring, the queues, the sink, the stream
/// identifier, or the listening/streaming state.
pub proof fn lemma_vads_keep<T>(d: DetectorView<T>, vads: Seq<VadStep<T>>)
    ensures
        ({
            let e = d.after_vads(vads);
            &&& e.ring == d.ring
            &&& e.ring_capacity == d.ring_capacity
            &&& e.vad_size == d.vad_size
            &&& e.wake_q == d.wake_q
            &&& e.vad_q == d.vad_q
            &&& e.calls == d.calls
            &&& e.streaming == d.streaming
            &&& e.stream_id == d.stream_id
            &&& e.model == d.model
            &&& e.end_silence == d.end_silence
            &&& e.cooldown_len == d.cooldown_len
            &&& e.wake_log == d.wake_log
            &&& e.vad_log == d.vad_log + vads
            &&& e.pushed == d.pushed
            &&& e.trigger_mark == d.trigger_mark
            &&& e.end_mark == d.end_mark
            &&& e.cooldown_base == d.cooldown_base
        }),
    decreases vads.len(),
{
    if vads.len() > 0 {
        let w = vads.drop_last();
        lemma_vads_keep(d, w);
        assert((d.vad_log + w).push(vads.last()) =~= d.vad_log + vads);
    } else {
        assert(d.vad_log + vads =~= d.vad_log);
    }
}

/// The cooldown runs down by one VAD chunk per chunk classified: after `k`
/// chunks of `vad_size` samples it is `max(0, cooldown - k * vad_size)`. A
/// detector therefore stays disarmed until a full cooldown's worth of audio
/// has gone through the voice-activity engine.
pub proof fn lemma_cooldown_runs_down<T>(d: DetectorView<T>, vads: Seq<VadStep<T>>)
    ensures
        d.after_vads(vads).cooldown == sat_sub(d.cooldown, vads.len() * d.vad_size),
    decreases vads.len(),
{
    if vads.len() > 0 {
        let k = vads.len();
        lemma_cooldown_runs_down(d, vads.drop_last());
        lemma_vads_keep(d, vads.drop_last());
        assert((k - 1) * d.vad_size + d.vad_size == k * d.vad_size) by (nonlinear_arith);
    } else {
        assert(0 * d.vad_size == 0) by (nonlinear_arith);
    }
}

/// Wake chunks that do not trigger leave everything but the wake score and
/// the wake log as it was.
pub proof fn lemma_quiet_wakes<T>(d: DetectorView<T>, wakes: Seq<WakeStep<T>>)
    requires
        forall|i: int| 0 <= i < wakes.len() ==> !(d.armed() && #[trigger] wakes[i].fires),
    ensures
        ({
            let e = d.after_wakes(wakes);
            &&& e.ring == d.ring
            &&& e.calls == d.calls
            &&& e.streaming == d.streaming
            &&& e.cooldown == d.cooldown
            &&& e.silence_run == d.silence_run
            &&& e.wake_q == d.wake_q
            &&& e.stream_id == d.stream_id
            &&& e.model == d.model
            &&& e.end_silence == d.end_silence
            &&& e.cooldown_len == d.cooldown_len
        }),
    decreases wakes.len(),
{
    if wakes.len() > 0 {
        let w = wakes.drop_last();
        assert forall|i: int| 0 <= i < w.len() implies !(d.armed() && #[trigger] w[i].fires) by {
            assert(w[i] == wakes[i]);
        }
        lemma_quiet_wakes(d, w);
        assert(!(d.armed() && wakes[wakes.len() - 1].fires));
    }
}

/// A detector that is streaming, or still cooling down, when its wake chunks
/// are scored never triggers during that push: however high the scores, no
/// wake event reaches the sink.
pub proof fn lemma_no_trigger_unless_armed<T>(d: DetectorView<T>, wakes: Seq<WakeStep<T>>)
    requires
        !d.armed(),
    ensures
        d.after_wakes(wakes).calls == d.calls,
        d.after_wakes(wakes).streaming == d.streaming,
{
    lemma_quiet_wakes(d, wakes);
}

/// A push made while listening, in which no wake chunk fires, makes no call
/// on the sink and leaves the detector listening, whatever the voice-activity
/// engine says: only the wake score decides a trigger.
pub proof fn lemma_no_fire_no_call<T>(
    d: DetectorView<T>,
    samples: Seq<T>,
    vads: Seq<VadStep<T>>,
    wakes: Seq<WakeStep<T>>,
)
    requires
        !d.streaming,
        forall|i: int| 0 <= i < wakes.len() ==> !#[trigger] wakes[i].fires,
    ensures
        d.after_push(samples, vads, wakes).calls == d.calls,
        !d.after_push(samples, vads, wakes).streaming,
{
    let f = d.fed(samples);
    lemma_vads_keep(f, vads);
    let mid = f.after_vads(vads);
    lemma_quiet_wakes(mid, wakes);
}

/// A push during which the wake phrase fires (the detector listening and past
/// its cooldown) makes, in this order, exactly these sink calls: the wake
/// event, whose pre-roll is the most recent `ring_capacity` samples including
/// the whole push, then the whole push as live audio, then `on_end` exactly
/// when the end-of-utterance silence is zero: the silence run starts afresh
/// at the trigger, and the chunks classified before it do not count.
pub proof fn lemma_trigger_streams_whole_push<T>(
    d: DetectorView<T>,
    samples: Seq<T>,
    vads: Seq<VadStep<T>>,
    wakes: Seq<WakeStep<T>>,
)
    requires
        d.ring_capacity >= 1,
        d.ring.len() <= d.ring_capacity,
        d.feeds(samples, vads, wakes),
        samples.len() > 0,
        wakes.len() > 0,
        d.fed(samples).after_vads(vads).armed(),
        wakes.last().fires,
    ensures
        ({
            let e = d.after_push(samples, vads, wakes);
            let n = d.calls.len() as int;
            let wake = SinkCall::Wake(WakeEventView {
                model: d.model,
                score: wakes.last().score,
                pre_roll: last_n(d.ring + samples, d.ring_capacity),
                stream_id: d.stream_id,
            });
            &&& e.calls.len() >= n + 2
            &&& e.calls.subrange(0, n) == d.calls
            &&& e.calls[n] == wake
            &&& e.calls[n + 1] == SinkCall::Audio(samples)
            &&& e.calls.len() == n + 2 ==> e.streaming
            &&& e.calls.len() != n + 2 ==> e.calls.len() == n + 3 && e.calls[n + 2] == SinkCall::<T>::End && !e.streaming
            &&& e.calls.len() == n + 3 <==> d.end_silence == 0
        }),
{
    let f = d.fed(samples);
    let mid = f.after_vads(vads);
    lemma_vads_keep(f, vads);
    lemma_ring_holds_latest(d.ring, samples, d.ring_capacity);
    let w = wakes.drop_last();
    assert forall|i: int| 0 <= i < w.len() implies !(mid.armed() && #[trigger] w[i].fires) by {
        assert(w[i] == wakes[i]);
    }
    lemma_quiet_wakes(mid, w);
    let pre = mid.after_wakes(w);
    let post = mid.after_wakes(wakes);
    assert(post == pre.after_wake(wakes.last()));
    assert(pre.armed());
    let n = d.calls.len();
    assert(post.calls.subrange(0, n as int) =~= d.calls);
    let e = post.finish_push(samples);
    if e.calls.len() == n + 2 {
        assert(e.calls.subrange(0, n as int) =~= d.calls);
    } else {
        assert(e.calls.subrange(0, n as int) =~= d.calls);
    }
}

proof fn lemma_vads_readout<T>(d: DetectorView<T>, vads: Seq<VadStep<T>>)
    ensures
        d.after_vads(vads).last_vad_prob == if vads.len() > 0 { vads.last().prob } else { d.last_vad_prob },
        d.after_vads(vads).last_wake_score == d.last_wake_score,
    decreases vads.len(),
{
    if vads.len() > 0 {
        lemma_vads_readout(d, vads.drop_last());
    }
}

proof fn lemma_wakes_readout<T>(d: DetectorView<T>, wakes: Seq<WakeStep<T>>)
    ensures
        d.after_wakes(wakes).last_wake_score == if wakes.len() > 0 { wakes.last().score } else { d.last_wake_score },
        d.after_wakes(wakes).last_vad_prob == d.last_vad_prob,
    decreases wakes.len(),
{
    if wakes.len() > 0 {
        lemma_wakes_readout(d, wakes.drop_last());
    }
}

/// The latest voice probability after a push is the one the engine returned
/// for the last chunk it classified, whether or not that chunk counted as
/// voice, and a push that classifies no chunk leaves it; likewise the latest
/// wake score is the one returned for the last wake chunk scored.
pub proof fn lemma_latest_readouts<T>(d: DetectorView<T>, samples: Seq<T>, vads: Seq<VadStep<T>>, wakes: Seq<WakeStep<T>>)
    ensures
        ({
            let e = d.after_push(samples, vads, wakes);
            &&& vads.len() > 0 ==> e.last_vad_prob == vads.last().prob
            &&& vads.len() == 0 ==> e.last_vad_prob == d.last_vad_prob
            &&& wakes.len() > 0 ==> e.last_wake_score == wakes.last().score
            &&& wakes.len() == 0 ==> e.last_wake_score == d.last_wake_score
        }),
{
    let f = d.fed(samples);
    lemma_vads_readout(f, vads);
    lemma_wakes_readout(f.after_vads(vads), wakes);
}

/// The chunks of a sequence of VAD steps.
pub open spec fn vad_chunks<T>(vads: Seq<VadStep<T>>) -> Seq<Seq<T>> {
    vads.map_values(|s: VadStep<T>| s.chunk)
}

/// The chunks of a sequence of wake steps.
pub open spec fn wake_chunks<T>(wakes: Seq<WakeStep<T>>) -> Seq<Seq<T>> {
    wakes.map_values(|s: WakeStep<T>| s.chunk)
}

proof fn lemma_later_phases_keep_vad_q<T>(d: DetectorView<T>, wakes: Seq<WakeStep<T>>, samples: Seq<T>)
    ensures
        d.after_wakes(wakes).finish_push(samples).vad_q == d.vad_q,
    decreases wakes.len(),
{
    if wakes.len() > 0 {
        lemma_later_phases_keep_vad_q(d, wakes.drop_last(), samples);
    }
}

/// Every sample pushed reaches the voice-activity engine exactly once and in
/// order, whatever the engines answer: the chunks it is fed during a push,
/// followed by what then waits in its queue, are the samples that waited
/// before followed by the push.
pub proof fn lemma_vad_sees_every_sample<T>(
    d: DetectorView<T>,
    samples: Seq<T>,
    vads: Seq<VadStep<T>>,
    wakes: Seq<WakeStep<T>>,
)
    requires
        d.vad_size > 0,
        d.feeds(samples, vads, wakes),
    ensures
        flatten(vad_chunks(vads)) + d.after_push(samples, vads, wakes).vad_q == d.vad_q + samples,
{
    let q = d.vad_q + samples;
    lemma_chunks_partition(q, d.vad_size);
    assert(vad_chunks(vads) =~= chunks_of(q, d.vad_size));
    let f = d.fed(samples);
    lemma_vads_keep(f, vads);
    lemma_later_phases_keep_vad_q(f.after_vads(vads), wakes, samples);
}

/// Until the wake phrase fires, every sample pushed reaches the wake engine
/// exactly once and in order, whatever the voice-activity engine says: in a
/// push with no trigger, the chunks fed to the wake engine followed by what
/// then waits in its queue are the samples that waited before followed by
/// the push. (A trigger drops what is still queued; the push itself is
/// streamed to the sink.)
pub proof fn lemma_wake_sees_every_sample_until_trigger<T>(
    d: DetectorView<T>,
    samples: Seq<T>,
    vads: Seq<VadStep<T>>,
    wakes: Seq<WakeStep<T>>,
)
    requires
        d.wake_size > 0,
        d.feeds(samples, vads, wakes),
        forall|i: int| 0 <= i < wakes.len() ==> !(d.fed(samples).after_vads(vads).armed() && #[trigger] wakes[i].fires),
    ensures
        flatten(wake_chunks(wakes)) + d.after_push(samples, vads, wakes).wake_q == d.wake_q + samples,
{
    let q = d.wake_q + samples;
    let wchunks = chunks_of(q, d.wake_size);
    lemma_chunks_partition(q, d.wake_size);
    let mid = d.fed(samples).after_vads(vads);
    lemma_vads_keep(d.fed(samples), vads);
    lemma_quiet_wakes(mid, wakes);
    if wakes.len() < wchunks.len() {
        assert(!(mid.armed() && wakes[wakes.len() - 1].fires));
    }
    assert(wake_chunks(wakes) =~= wchunks);
    let post = mid.after_wakes(wakes);
    if post.streaming {
        assert(post.finish_push(samples).wake_q == post.wake_q);
    }
}

} // verus!
