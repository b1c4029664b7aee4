use phonix::{LogSink, StreamSink, VecSink, WakeEvent};

#[test]
fn vec_sink_records_calls_in_shape() {
    let mut s = VecSink::default();
    s.on_wake(&WakeEvent {
        model: "hey_jarvis".into(),
        score: 0.9,
        pre_roll: vec![0.0; 8000],
        stream_id: None,
    });
    s.on_audio(&[0.1, 0.2]);
    s.on_end();
    assert_eq!(s.wakes.len(), 1);
    assert_eq!(s.wakes[0].pre_roll.len(), 8000);
    assert_eq!(s.audio, vec![0.1, 0.2]);
    assert_eq!(s.ends, 1);
}

#[test]
fn vec_sink_copies_the_event() {
    let mut s: VecSink<i32> = VecSink::new();
    let e = WakeEvent {
        model: "m".to_string(),
        score: 3,
        pre_roll: vec![1, 2],
        stream_id: Some("p1".to_string()),
    };
    s.on_wake(&e);
    s.on_audio(&[4]);
    s.on_audio(&[5, 6]);
    assert_eq!(s.wakes[0].model, "m");
    assert_eq!(s.wakes[0].score, 3);
    assert_eq!(s.wakes[0].pre_roll, vec![1, 2]);
    assert_eq!(s.wakes[0].stream_id.as_deref(), Some("p1"));
    assert_eq!(s.audio, vec![4, 5, 6]);
    assert_eq!(s.ends, 0);
}

#[test]
fn log_sink_counts_streamed_samples_per_utterance() {
    let mut s = LogSink::new("alice");
    assert_eq!(s.participant, "alice");
    assert_eq!(s.streamed, 0);
    StreamSink::<f32>::on_audio(&mut s, &[0.0; 320]);
    StreamSink::<f32>::on_audio(&mut s, &[0.0; 160]);
    assert_eq!(s.streamed, 480);
    StreamSink::<f32>::on_end(&mut s);
    assert_eq!(s.streamed, 480);
    s.on_wake(&WakeEvent { model: String::new(), score: 1.0f32, pre_roll: vec![], stream_id: None });
    assert_eq!(s.streamed, 0);
}
