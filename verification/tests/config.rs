use phonix::config::samples_to_ms;
use phonix::Config;

#[test]
fn defaults_are_sane_and_samples_convert() {
    let c = Config::with_thresholds(0.5f32, 0.5f32);
    assert_eq!(c.pre_roll_ms, 500);
    assert_eq!(c.pre_roll_samples(), 8_000);
    assert_eq!(c.cooldown_samples(), 24_000);
    assert_eq!(c.end_silence_samples(), 11_200);
    assert!(c.models.wake.is_none());
}

#[test]
fn default_config_fields() {
    let c = Config::with_thresholds(0.25f32, 0.75f32);
    assert_eq!(c.input_sample_rate, 16_000);
    assert_eq!(c.input_channels, 1);
    assert_eq!(c.vad_threshold, 0.25);
    assert_eq!(c.wake_threshold, 0.75);
    assert_eq!(c.cooldown_ms, 1_500);
    assert_eq!(c.end_silence_ms, 700);
    assert_eq!(c.models.vad, "crates/phonix/models/silero_vad.onnx");
}

#[test]
fn sample_conversions_follow_custom_durations() {
    let mut c = Config::with_thresholds(0u8, 0u8);
    c.pre_roll_ms = 100;
    c.cooldown_ms = 0;
    c.end_silence_ms = 1;
    assert_eq!(c.pre_roll_samples(), 1_600);
    assert_eq!(c.cooldown_samples(), 0);
    assert_eq!(c.end_silence_samples(), 16);
    c.pre_roll_ms = u32::MAX;
    assert_eq!(c.pre_roll_samples(), u32::MAX as usize * 16);
}

#[test]
fn samples_convert_back_to_whole_ms() {
    assert_eq!(samples_to_ms(8_000), 500);
    assert_eq!(samples_to_ms(15), 0);
    assert_eq!(samples_to_ms(33), 2);
}
