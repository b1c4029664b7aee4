use phonix::{VoiceActivity, WakeWord};

/// Wake stage that fires (score 1.0) on its Nth chunk, else 0.0.
struct ScriptedWake {
    size: usize,
    fire_on_call: usize,
    calls: usize,
}

impl WakeWord<f32> for ScriptedWake {
    fn chunk_size(&self) -> usize {
        self.size
    }
    fn model_name(&self) -> &str {
        "fake"
    }
    fn process(&mut self, _chunk: &[f32]) -> f32 {
        self.calls += 1;
        if self.calls == self.fire_on_call {
            1.0
        } else {
            0.0
        }
    }
    fn is_wake(&self, score: &f32, threshold: &f32) -> bool {
        score > threshold
    }
}

/// VAD that classifies audio by energy: 1.0 if mean absolute amplitude exceeds 0.01.
struct EnergyVad {
    size: usize,
}

impl VoiceActivity<f32> for EnergyVad {
    fn chunk_size(&self) -> usize {
        self.size
    }
    fn process(&mut self, chunk: &[f32]) -> f32 {
        let mean_abs = chunk.iter().map(|x| x.abs()).sum::<f32>() / chunk.len() as f32;
        if mean_abs > 0.01 {
            1.0
        } else {
            0.0
        }
    }
    fn is_voice(&self, prob: &f32, threshold: &f32) -> bool {
        prob > threshold
    }
}

#[test]
fn scripted_wake_fires_only_on_target_call() {
    let mut w = ScriptedWake {
        size: 1280,
        fire_on_call: 2,
        calls: 0,
    };
    assert_eq!(w.process(&[]), 0.0);
    assert_eq!(w.process(&[]), 1.0);
    assert_eq!(w.process(&[]), 0.0);
    assert_eq!(w.chunk_size(), 1280);
}

#[test]
fn energy_vad_returns_one_for_loud_chunk_and_zero_for_silent() {
    let mut v = EnergyVad { size: 512 };
    assert_eq!(v.process(&vec![0.5f32; 512]), 1.0);
    assert_eq!(v.process(&vec![0.0f32; 512]), 0.0);
    assert_eq!(v.chunk_size(), 512);
}
