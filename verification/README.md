# phonix

Wake-word detection with voice-activity gating, a pre-roll ring buffer and a
streaming sink boundary, written in Verus.

## Layout

- `src/` — the verified library, generic over the sample type so that it never
  computes on floating point itself.
  - `ring.rs` — `PreRollRing`, the circular buffer of the most recent samples.
  - `chunks.rs` — cutting a sample stream into fixed-size engine chunks.
  - `detector.rs` — the listening/streaming state machine, its model
    (`DetectorView`) and the laws about a single push.
  - `history.rs` — runs of pushes, and what holds across them: the pre-roll
    of every wake event, when an utterance ends, how long the cooldown holds.
  - `sink.rs` — `WakeEvent`, the `StreamSink` boundary, `VecSink`, `LogSink`,
    and the order in which a sink is called.
  - `engine.rs` — the engine traits (`VoiceActivity`, `WakeWord`, `Resample`)
    and the handles through which the detector calls them.
  - `config.rs`, `error.rs` — configuration and errors.
  - `recall.rs` — decoding real-time meeting audio messages (base64, s16le PCM).
  - `listen.rs`, `eval.rs` — device selection, debug pacing, evaluation tallies.
- `app/` — the programs: the floating-point engines (rubato, tract, oww-rs), the
  microphone/file tester, the evaluation scorer and the meeting-audio service.
- `tests/` — tests of the library.
