use vstd::prelude::*;
use vstd::string::*;

verus! {

/// Number of 16 kHz mono samples in one millisecond of audio.
pub const SAMPLES_PER_MS: usize = 16;

/// Locations of the model files. `wake == None` selects the bundled
/// `hey_jarvis` classifier; `Some(path)` a custom one.
#[derive(Debug, Clone)]
pub struct ModelPaths {
    pub vad: String,
    pub wake: Option<String>,
}

/// Runtime configuration of the detector. `T` is the type in which scores and
/// thresholds are expressed (the sample type of the engines).
#[derive(Debug, Clone)]
pub struct Config<T> {
    pub input_sample_rate: u32,
    pub input_channels: u16,
    pub vad_threshold: T,
    pub wake_threshold: T,
    pub pre_roll_ms: u32,
    pub cooldown_ms: u32,
    pub end_silence_ms: u32,
    pub models: ModelPaths,
}

/// The default location of the Silero VAD model, relative to the workspace root.
pub open spec fn default_vad_path() -> Seq<char> {
    "crates/phonix/models/silero_vad.onnx"@
}

/// Milliseconds of 16 kHz audio expressed as a sample count (capped at
/// `usize::MAX`, which a 64-bit target never reaches).
pub open spec fn ms_to_samples(ms: u32) -> nat {
    if ms as nat * 16 <= usize::MAX {
        ms as nat * 16
    } else {
        usize::MAX as nat
    }
}

/// Audio runs at 16 kHz: wherever the count fits, `ms` milliseconds are
/// `ms * 16_000 / 1000` samples, lengths add up, and whole milliseconds come
/// back from their samples (see `samples_to_ms`).
pub proof fn lemma_ms_to_samples_rate(a: u32, b: u32)
    ensures
        a as nat * 16 <= usize::MAX ==> ms_to_samples(a) * 1000 == a as nat * 16_000,
        a as nat * 16 <= usize::MAX ==> ms_to_samples(a) / 16 == a,
        (a + b) * 16 <= usize::MAX && a + b <= u32::MAX ==> ms_to_samples((a + b) as u32) == ms_to_samples(a) + ms_to_samples(b),
{
}

fn ms_samples(ms: u32) -> (n: usize)
    ensures
        n == ms_to_samples(ms),
{
    let ms = ms as usize;
    if ms <= usize::MAX / SAMPLES_PER_MS {
        ms * SAMPLES_PER_MS
    } else {
        usize::MAX
    }
}

impl<T> Config<T> {
    /// The standard configuration (16 kHz mono input, 500 ms pre-roll, 1500 ms
    /// cooldown, 700 ms end-of-utterance silence, bundled wake model) with the
    /// given voice and wake thresholds.
    pub fn with_thresholds(vad_threshold: T, wake_threshold: T) -> (c: Self)
        ensures
            c.input_sample_rate == 16_000,
            c.input_channels == 1,
            c.vad_threshold == vad_threshold,
            c.wake_threshold == wake_threshold,
            c.pre_roll_ms == 500,
            c.cooldown_ms == 1_500,
            c.end_silence_ms == 700,
            c.models.vad@ == default_vad_path(),
            c.models.wake is None,
    {
        Config {
            input_sample_rate: 16_000,
            input_channels: 1,
            vad_threshold,
            wake_threshold,
            pre_roll_ms: 500,
            cooldown_ms: 1_500,
            end_silence_ms: 700,
            models: ModelPaths {
                vad: String::from_str("crates/phonix/models/silero_vad.onnx"),
                wake: None,
            },
        }
    }

    /// Samples retained in the pre-roll ring (`pre_roll_ms` at 16 kHz mono).
    pub fn pre_roll_samples(&self) -> (n: usize)
        ensures
            n == ms_to_samples(self.pre_roll_ms),
    {
        ms_samples(self.pre_roll_ms)
    }

    /// Cooldown length in 16 kHz samples.
    pub fn cooldown_samples(&self) -> (n: usize)
        ensures
            n == ms_to_samples(self.cooldown_ms),
    {
        ms_samples(self.cooldown_ms)
    }

    /// End-of-utterance silence length in 16 kHz samples.
    pub fn end_silence_samples(&self) -> (n: usize)
        ensures
            n == ms_to_samples(self.end_silence_ms),
    {
        ms_samples(self.end_silence_ms)
    }
}

/// Whole milliseconds covered by `samples` samples of 16 kHz audio.
pub fn samples_to_ms(samples: usize) -> (ms: usize)
    ensures
        ms == samples / 16,
{
    samples / SAMPLES_PER_MS
}

} // verus!
