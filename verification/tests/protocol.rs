use phonix::{Config, Detector, MonoPassthrough, StreamSink, VoiceActivity, WakeEvent, WakeWord};

/// VAD that reads voice from the sign of the chunk's first sample.
struct SignVad;
impl VoiceActivity<i32> for SignVad {
    fn chunk_size(&self) -> usize {
        16
    }
    fn process(&mut self, chunk: &[i32]) -> i32 {
        if chunk[0] > 0 { 100 } else { 0 }
    }
    fn is_voice(&self, prob: &i32, threshold: &i32) -> bool {
        prob > threshold
    }
}

/// Wake stage scoring a chunk by whether it contains the marker value 7.
struct MarkerWake;
impl WakeWord<i32> for MarkerWake {
    fn chunk_size(&self) -> usize {
        32
    }
    fn model_name(&self) -> &str {
        "marker"
    }
    fn process(&mut self, chunk: &[i32]) -> i32 {
        if chunk.contains(&7) { 100 } else { 0 }
    }
    fn is_wake(&self, score: &i32, threshold: &i32) -> bool {
        score > threshold
    }
}

/// Records the order of sink calls as letters.
#[derive(Default)]
struct OrderSink {
    calls: String,
    audio: Vec<i32>,
    pre_rolls: Vec<Vec<i32>>,
}
impl StreamSink<i32> for OrderSink {
    fn on_wake(&mut self, event: &WakeEvent<i32>) {
        self.calls.push('W');
        self.pre_rolls.push(event.pre_roll.clone());
    }
    fn on_audio(&mut self, frames: &[i32]) {
        self.calls.push('A');
        self.audio.extend_from_slice(frames);
    }
    fn on_end(&mut self) {
        self.calls.push('E');
    }
}

#[test]
fn sink_calls_follow_wake_audio_end_order() {
    let cfg = Config { pre_roll_ms: 2, cooldown_ms: 2, end_silence_ms: 2, ..Config::with_thresholds(50, 50) };
    let mut d = Detector::with_engines(cfg, MonoPassthrough, SignVad, MarkerWake, OrderSink::default());
    let mut wake = vec![1; 32];
    wake[5] = 7;
    for _ in 0..3 {
        d.push(&vec![1; 32]).unwrap();
        d.push(&wake).unwrap();
        d.push(&vec![1; 8]).unwrap();
        d.push(&vec![0; 48]).unwrap();
        d.push(&vec![0; 64]).unwrap();
    }
    let s = d.into_sink();
    assert_eq!(s.calls, "WAAAEWAAAEWAAAE");
    for p in &s.pre_rolls {
        assert_eq!(p.len(), 32, "pre-roll holds the latest 2 ms");
    }
    assert_eq!(s.pre_rolls[0], wake);
}
