use phonix::{Config, Detector, MonoPassthrough, Resample, VecSink, VoiceActivity, WakeWord, Error};

/// VAD that returns a constant probability.
struct ConstVad {
    size: usize,
    prob: f32,
}
impl VoiceActivity<f32> for ConstVad {
    fn chunk_size(&self) -> usize {
        self.size
    }
    fn process(&mut self, _chunk: &[f32]) -> f32 {
        self.prob
    }
    fn is_voice(&self, prob: &f32, threshold: &f32) -> bool {
        prob > threshold
    }
}

/// Wake stage that fires (score 1.0) on its Nth chunk, else 0.0.
struct ScriptedWake {
    size: usize,
    fire_on_call: usize,
    calls: usize,
}
impl WakeWord<f32> for ScriptedWake {
    fn chunk_size(&self) -> usize {
        self.size
    }
    fn model_name(&self) -> &str {
        "fake"
    }
    fn process(&mut self, _chunk: &[f32]) -> f32 {
        self.calls += 1;
        if self.calls == self.fire_on_call {
            1.0
        } else {
            0.0
        }
    }
    fn is_wake(&self, score: &f32, threshold: &f32) -> bool {
        score > threshold
    }
}

/// VAD that classifies audio by energy: 1.0 if mean absolute amplitude exceeds 0.01.
struct EnergyVad {
    size: usize,
}
impl VoiceActivity<f32> for EnergyVad {
    fn chunk_size(&self) -> usize {
        self.size
    }
    fn process(&mut self, chunk: &[f32]) -> f32 {
        let mean_abs = chunk.iter().map(|x| x.abs()).sum::<f32>() / chunk.len() as f32;
        if mean_abs > 0.01 {
            1.0
        } else {
            0.0
        }
    }
    fn is_voice(&self, prob: &f32, threshold: &f32) -> bool {
        prob > threshold
    }
}

/// Wake stage that always fires (score 1.0).
struct AlwaysWake {
    size: usize,
}
impl WakeWord<f32> for AlwaysWake {
    fn chunk_size(&self) -> usize {
        self.size
    }
    fn model_name(&self) -> &str {
        "always"
    }
    fn process(&mut self, _chunk: &[f32]) -> f32 {
        1.0
    }
    fn is_wake(&self, score: &f32, threshold: &f32) -> bool {
        score > threshold
    }
}

/// A resampler that always fails.
struct BrokenResampler;
impl Resample<f32> for BrokenResampler {
    fn process(&mut self, _interleaved: &[f32]) -> Result<Vec<f32>, Error> {
        Err(Error::Resample("broken".into()))
    }
}

fn cfg() -> Config<f32> {
    Config {
        input_sample_rate: 16_000,
        input_channels: 1,
        ..Config::with_thresholds(0.5, 0.5)
    }
}

/// Build a detector with fake engines (512-sample VAD, 1280-sample wake).
fn det(vad_prob: f32, fire_on_call: usize) -> Detector<f32, MonoPassthrough, ConstVad, ScriptedWake, VecSink<f32>> {
    Detector::with_engines(
        cfg(),
        MonoPassthrough,
        ConstVad { size: 512, prob: vad_prob },
        ScriptedWake { size: 1280, fire_on_call, calls: 0 },
        VecSink::default(),
    )
}

#[test]
fn wake_below_threshold_never_triggers() {
    let mut d = det(1.0, usize::MAX);
    d.push(&vec![0.5f32; 16_000]).unwrap();
    assert_eq!(d.sink().wakes.len(), 0);
}

#[test]
fn wake_is_fed_continuously_regardless_of_vad_voice() {
    let mut d = det(0.0, 1);
    d.push(&vec![0.0f32; 16_000]).unwrap();
    assert_eq!(
        d.sink().wakes.len(),
        1,
        "wake must fire on a high score even when VAD says no voice"
    );
}

#[test]
fn voice_plus_wake_fires_once_with_full_preroll() {
    let mut d = det(1.0, 2);
    d.push(&vec![0.5f32; 16_000]).unwrap();
    let s = d.sink();
    assert_eq!(s.wakes.len(), 1, "exactly one trigger");
    assert_eq!(s.wakes[0].pre_roll.len(), 8_000);
    assert_eq!(s.wakes[0].model, "fake");
}

#[test]
fn silence_emits_on_end_and_cooldown_blocks_then_allows_retrigger() {
    let mut d = Detector::with_engines(
        cfg(),
        MonoPassthrough,
        EnergyVad { size: 512 },
        AlwaysWake { size: 1280 },
        VecSink::default(),
    );

    d.push(&vec![0.5f32; 10_240]).unwrap();
    assert_eq!(d.sink().wakes.len(), 1, "phase 1: exactly one wake trigger");
    assert_eq!(d.sink().ends, 0, "phase 1: no end yet");

    d.push(&vec![0.0f32; 11_264]).unwrap();
    assert_eq!(d.sink().ends, 1, "phase 2: on_end fired exactly once");
    assert_eq!(d.sink().wakes.len(), 1, "phase 2: no new wake during silence");

    d.push(&vec![0.5f32; 2_560]).unwrap();
    assert_eq!(d.sink().wakes.len(), 1, "phase 3: cooldown blocks re-trigger");
    assert_eq!(d.sink().ends, 1, "phase 3: no additional end");

    d.push(&vec![0.5f32; 22_784]).unwrap();
    assert_eq!(d.sink().wakes.len(), 2, "phase 4: second wake after cooldown expires");
    assert_eq!(d.sink().ends, 1, "phase 4: still exactly one end event");
}

#[test]
fn trigger_midpush_streams_whole_push_no_gap() {
    let cfg = Config {
        input_sample_rate: 16_000,
        input_channels: 1,
        pre_roll_ms: 100,
        ..Config::with_thresholds(0.5, 0.5)
    };
    let mut d = Detector::with_engines(
        cfg,
        MonoPassthrough,
        EnergyVad { size: 512 },
        AlwaysWake { size: 1280 },
        VecSink::default(),
    );
    d.push(&vec![0.5f32; 4_096]).unwrap();
    let s = d.sink();
    assert_eq!(s.wakes.len(), 1, "exactly one wake trigger");
    assert_eq!(
        s.audio.len(),
        4_096,
        "entire push delivered via on_audio (no gap after trigger)"
    );
}

#[test]
fn pre_roll_is_the_latest_samples_oldest_first() {
    let cfg = Config { pre_roll_ms: 1, ..Config::with_thresholds(0.5f32, 0.5f32) };
    let mut d = Detector::with_engines(
        cfg,
        MonoPassthrough,
        ConstVad { size: 4, prob: 0.0 },
        ScriptedWake { size: 8, fire_on_call: 3, calls: 0 },
        VecSink::default(),
    );
    let ramp: Vec<f32> = (0..20).map(|i| i as f32).collect();
    d.push(&ramp).unwrap();
    assert_eq!(d.sink().wakes.len(), 0);
    let more: Vec<f32> = (20..30).map(|i| i as f32).collect();
    d.push(&more).unwrap();
    let s = d.sink();
    assert_eq!(s.wakes.len(), 1);
    let expected: Vec<f32> = (14..30).map(|i| i as f32).collect();
    assert_eq!(s.wakes[0].pre_roll, expected);
    assert_eq!(s.wakes[0].score, 1.0);
    assert_eq!(s.audio, more, "the triggering push is streamed whole");
}

#[test]
fn stream_id_is_carried_by_wake_events() {
    let mut d = det(1.0, 1);
    d.set_stream_id(Some("participant-42".to_string()));
    d.push(&vec![0.5f32; 1_280]).unwrap();
    assert_eq!(d.sink().wakes[0].stream_id.as_deref(), Some("participant-42"));
    assert_eq!(d.last_wake_score(), 1.0);
    assert_eq!(d.last_vad_prob(), 1.0);
}

#[test]
fn observability_starts_empty() {
    let d = det(0.3, 1);
    assert_eq!(d.last_vad_prob(), 0.0);
    assert_eq!(d.last_wake_score(), 0.0);
    let sink = d.into_sink();
    assert!(sink.wakes.is_empty() && sink.audio.is_empty() && sink.ends == 0);
}

#[test]
fn partial_chunks_wait_for_later_pushes() {
    let mut d = det(0.7, 1);
    d.push(&vec![0.5f32; 1_000]).unwrap();
    assert_eq!(d.last_wake_score(), 0.0, "no complete wake chunk yet");
    assert_eq!(d.last_vad_prob(), 0.7);
    assert_eq!(d.sink().wakes.len(), 0);
    d.push(&vec![0.5f32; 280]).unwrap();
    assert_eq!(d.sink().wakes.len(), 1);
    assert_eq!(d.sink().audio.len(), 280);
}

#[test]
fn resampler_error_is_returned() {
    let mut d = Detector::with_engines(
        cfg(),
        BrokenResampler,
        ConstVad { size: 512, prob: 1.0 },
        AlwaysWake { size: 1280 },
        VecSink::default(),
    );
    let r = d.push(&[0.5f32; 2_000]);
    assert!(matches!(r, Err(Error::Resample(_))));
    assert_eq!(d.sink().wakes.len(), 0);
    assert_eq!(d.last_vad_prob(), 0.0);
}

#[test]
fn silence_after_trigger_ends_the_utterance() {
    let cfg = Config { end_silence_ms: 32, ..cfg() };
    let mut d = Detector::with_engines(
        cfg,
        MonoPassthrough,
        ConstVad { size: 512, prob: 0.0 },
        AlwaysWake { size: 1280 },
        VecSink::default(),
    );
    d.push(&vec![0.0f32; 1_280]).unwrap();
    assert_eq!(d.sink().wakes.len(), 1);
    assert_eq!(d.sink().ends, 0, "the trigger restarts the silence count");
    assert_eq!(d.sink().audio.len(), 1_280);
    d.push(&vec![0.0f32; 256]).unwrap();
    assert_eq!(d.sink().ends, 1, "256 samples complete a silent 512-sample VAD chunk");
    assert_eq!(d.sink().audio.len(), 1_536, "the ending push is still streamed");
    d.push(&vec![0.0f32; 512]).unwrap();
    assert_eq!(d.sink().audio.len(), 1_536, "nothing streams after the end");
    assert_eq!(d.sink().wakes.len(), 1, "cooldown blocks a new trigger");
}

#[test]
fn silence_is_counted_across_pushes() {
    let cfg = Config { end_silence_ms: 64, ..cfg() };
    let mut d = Detector::with_engines(
        cfg,
        MonoPassthrough,
        ConstVad { size: 512, prob: 0.0 },
        AlwaysWake { size: 1280 },
        VecSink::default(),
    );
    d.push(&vec![0.0f32; 1_280]).unwrap();
    assert_eq!(d.sink().wakes.len(), 1);
    d.push(&vec![0.0f32; 300]).unwrap();
    assert_eq!(d.sink().ends, 0, "512 silent samples since the trigger");
    d.push(&vec![0.0f32; 300]).unwrap();
    assert_eq!(d.sink().ends, 0, "no complete VAD chunk in this push");
    d.push(&vec![0.0f32; 300]).unwrap();
    assert_eq!(d.sink().ends, 1, "1024 silent samples since the trigger end the utterance");
    assert_eq!(d.sink().audio.len(), 2_180, "every push of the utterance is streamed");
    d.push(&vec![0.0f32; 512]).unwrap();
    assert_eq!(d.sink().audio.len(), 2_180);
}

#[test]
fn cooldown_counts_samples_pushed_since_the_end() {
    let cfg = Config { end_silence_ms: 32, cooldown_ms: 64, ..cfg() };
    let mut d = Detector::with_engines(
        cfg,
        MonoPassthrough,
        ConstVad { size: 512, prob: 0.0 },
        AlwaysWake { size: 256 },
        VecSink::default(),
    );
    d.push(&vec![0.0f32; 1_280]).unwrap();
    assert_eq!(d.sink().wakes.len(), 1);
    d.push(&vec![0.0f32; 256]).unwrap();
    assert_eq!(d.sink().ends, 1);
    d.push(&vec![0.0f32; 512]).unwrap();
    assert_eq!(d.sink().wakes.len(), 1, "512 of 1024 cooldown samples classified");
    d.push(&vec![0.0f32; 511]).unwrap();
    assert_eq!(d.sink().wakes.len(), 1, "no VAD chunk completes, the cooldown stands");
    d.push(&vec![0.0f32; 1]).unwrap();
    assert_eq!(d.sink().wakes.len(), 2, "1024 samples classified since the end");
    assert_eq!(d.sink().ends, 1);
}
