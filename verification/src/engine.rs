use vstd::prelude::*;
use vstd::string::*;
use crate::error::Error;
use crate::sink::copy_samples;

verus! {

/// The value of a resampler's result, as contracts speak of it.
pub open spec fn result_view<T>(r: Result<Vec<T>, Error>) -> Result<Seq<T>, Error> {
    match r {
        Ok(v) => Ok(v@),
        Err(e) => Err(e),
    }
}

/// Voice-activity detector over fixed-size 16 kHz mono chunks.
///
/// `T` is the engine's sample type; its probabilities are values of the same
/// type, and the engine itself decides how a probability compares with a
/// threshold.
pub trait VoiceActivity<T>: Send {
    /// Exact number of samples `process` expects per call.
    fn chunk_size(&self) -> usize;

    /// Voice probability for one chunk.
    fn process(&mut self, chunk: &[T]) -> T;

    /// Whether `prob` is above `threshold`, i.e. the chunk counts as speech.
    fn is_voice(&self, prob: &T, threshold: &T) -> bool;
}

/// Wake-word stage over fixed-size 16 kHz mono chunks.
pub trait WakeWord<T>: Send {
    /// Exact number of samples `process` expects per call.
    fn chunk_size(&self) -> usize;

    /// Name reported in `WakeEvent::model`.
    fn model_name(&self) -> &str;

    /// The latest wake score for one chunk.
    fn process(&mut self, chunk: &[T]) -> T;

    /// Whether `score` is above `threshold`, i.e. the wake phrase fires.
    fn is_wake(&self, score: &T, threshold: &T) -> bool;
}

/// Converts interleaved input audio of any rate and channel count into 16 kHz
/// mono samples.
pub trait Resample<T>: Send {
    fn process(&mut self, interleaved: &[T]) -> Result<Vec<T>, Error>;
}

/// The resampler for input that is already 16 kHz mono: every sample passes
/// through unchanged.
pub struct MonoPassthrough;

impl<T: Copy> Resample<T> for MonoPassthrough {
    fn process(&mut self, interleaved: &[T]) -> (r: Result<Vec<T>, Error>)
        ensures
            r matches Ok(v) && v@ == interleaved@,
    {
        Ok(copy_samples(interleaved))
    }
}

/// One chunk handed to the voice-activity engine, and what it answered.
pub struct VadStep<T> {
    pub chunk: Seq<T>,
    pub prob: T,
    pub voice: bool,
}

/// One chunk handed to the wake engine, and what it answered.
pub struct WakeStep<T> {
    pub chunk: Seq<T>,
    pub score: T,
    pub fires: bool,
}

/// One block handed to the resampler, and what it returned.
pub struct ResampleStep<T> {
    pub input: Seq<T>,
    pub output: Result<Seq<T>, Error>,
}

/// A voice-activity engine together with the record of every chunk it has
/// classified through this handle, with the probability and the decision it
/// returned.
pub struct VadEngine<T, V> {
    engine: V,
    heard: Ghost<Seq<VadStep<T>>>,
}

impl<T: Copy, V: VoiceActivity<T>> VadEngine<T, V> {
    pub closed spec fn heard(&self) -> Seq<VadStep<T>> {
        self.heard@
    }

    pub closed spec fn engine(&self) -> V {
        self.engine
    }

    pub fn new(engine: V) -> (r: Self)
        ensures
            r.heard().len() == 0,
            r.engine() == engine,
    {
        VadEngine { engine, heard: Ghost(Seq::empty()) }
    }

    /// The chunk size the engine reports.
    pub fn chunk_size(&self) -> usize {
        self.engine.chunk_size()
    }

    /// Hands `chunk` to the engine and asks whether its probability is above
    /// `threshold`.
    pub fn classify(&mut self, chunk: &[T], threshold: &T) -> (r: (T, bool))
        ensures
            final(self).heard() == old(self).heard().push(VadStep { chunk: chunk@, prob: r.0, voice: r.1 }),
    {
        let prob = self.engine.process(chunk);
        let voice = self.engine.is_voice(&prob, threshold);
        proof {
            self.heard@ = self.heard@.push(VadStep { chunk: chunk@, prob, voice });
        }
        (prob, voice)
    }
}

/// A wake engine together with its model name (asked once, when the handle is
/// made) and the record of every chunk it has scored through this handle, with
/// the score and the decision it returned.
pub struct WakeEngine<T, W> {
    engine: W,
    name: String,
    heard: Ghost<Seq<WakeStep<T>>>,
}

impl<T: Copy, W: WakeWord<T>> WakeEngine<T, W> {
    pub closed spec fn heard(&self) -> Seq<WakeStep<T>> {
        self.heard@
    }

    pub closed spec fn name(&self) -> Seq<char> {
        self.name@
    }

    pub closed spec fn engine(&self) -> W {
        self.engine
    }

    pub fn new(engine: W) -> (r: Self)
        ensures
            r.heard().len() == 0,
            r.engine() == engine,
    {
        let name = String::from_str(engine.model_name());
        WakeEngine { engine, name, heard: Ghost(Seq::empty()) }
    }

    /// The chunk size the engine reports.
    pub fn chunk_size(&self) -> usize {
        self.engine.chunk_size()
    }

    /// The model name.
    pub fn model_name(&self) -> (r: String)
        ensures
            r@ == self.name(),
    {
        self.name.clone()
    }

    /// Hands `chunk` to the engine and asks whether its score is above
    /// `threshold`.
    pub fn score(&mut self, chunk: &[T], threshold: &T) -> (r: (T, bool))
        ensures
            final(self).heard() == old(self).heard().push(WakeStep { chunk: chunk@, score: r.0, fires: r.1 }),
            final(self).name() == old(self).name(),
    {
        let score = self.engine.process(chunk);
        let fires = self.engine.is_wake(&score, threshold);
        proof {
            self.heard@ = self.heard@.push(WakeStep { chunk: chunk@, score, fires });
        }
        (score, fires)
    }
}

/// A resampler together with the record of every block handed to it through
/// this handle and what it returned.
pub struct Resampling<T, R> {
    resampler: R,
    log: Ghost<Seq<ResampleStep<T>>>,
}

impl<T, R: Resample<T>> Resampling<T, R> {
    pub closed spec fn log(&self) -> Seq<ResampleStep<T>> {
        self.log@
    }

    pub closed spec fn resampler(&self) -> R {
        self.resampler
    }

    pub fn new(resampler: R) -> (r: Self)
        ensures
            r.log().len() == 0,
            r.resampler() == resampler,
    {
        Resampling { resampler, log: Ghost(Seq::empty()) }
    }

    /// Hands `interleaved` to the resampler.
    pub fn process(&mut self, interleaved: &[T]) -> (r: Result<Vec<T>, Error>)
        ensures
            final(self).log() == old(self).log().push(ResampleStep { input: interleaved@, output: result_view(r) }),
    {
        let r = self.resampler.process(interleaved);
        proof {
            self.log@ = self.log@.push(ResampleStep { input: interleaved@, output: result_view(r) });
        }
        r
    }
}

} // verus!
