use base64::Engine as _;
use phonix::recall::{audio_from_decoded, audio_message, contains_text, pcm_s16le_to_i16, Participant};

fn b64(bytes: &[u8]) -> Vec<u8> {
    base64::engine::general_purpose::STANDARD.encode(bytes).into_bytes()
}

#[test]
fn decodes_s16le_samples() {
    let f = pcm_s16le_to_i16(&[0x00, 0x00, 0xff, 0x7f, 0x00, 0x80, 0x34, 0x12]);
    assert_eq!(f, vec![0, 32767, -32768, 0x1234]);
}

#[test]
fn odd_trailing_byte_is_ignored() {
    assert_eq!(pcm_s16le_to_i16(&[0x00, 0x00, 0x10]).len(), 1);
    assert!(pcm_s16le_to_i16(&[0x10]).is_empty());
}

#[test]
fn separate_audio_is_keyed_by_participant_id() {
    let p = Participant { id: Some("42".into()), name: Some("Alice".into()) };
    let a = audio_message("audio_separate_raw.data", &b64(&[0, 0, 0, 0]), Some(p)).unwrap();
    assert_eq!(a.participant_key, "42");
    assert_eq!(a.frames, vec![0, 0]);
}

#[test]
fn name_keys_audio_when_id_absent() {
    let p = Participant { id: None, name: Some("Bob".into()) };
    let a = audio_message("audio_separate_raw.data", &b64(&[0, 0]), Some(p)).unwrap();
    assert_eq!(a.participant_key, "Bob");
}

#[test]
fn mixed_audio_without_participant() {
    let a = audio_message("audio_mixed_raw.data", &b64(&[0, 0]), None).unwrap();
    assert_eq!(a.participant_key, "mixed");
    assert_eq!(a.frames.len(), 1);
    let a = audio_message("audio_mixed_raw.data", &b64(&[1, 0]), Some(Participant { id: None, name: None })).unwrap();
    assert_eq!(a.participant_key, "mixed");
    assert_eq!(a.frames, vec![1]);
}

#[test]
fn non_audio_events_carry_no_audio() {
    assert!(audio_message("transcript.data", &b64(&[0, 0]), None).is_none());
    assert!(audio_message("audio_mixed.data", &b64(&[0, 0]), None).is_none());
    assert!(audio_message("", &b64(&[0, 0]), None).is_none());
}

#[test]
fn invalid_or_empty_buffers_carry_no_audio() {
    assert!(audio_message("audio_mixed_raw.data", b"not base64!", None).is_none());
    assert!(audio_message("audio_mixed_raw.data", b"", None).is_none());
    assert!(audio_message("audio_mixed_raw.data", &b64(&[7]), None).is_none());
}

#[test]
fn buffer_is_base64_decoded_before_pcm_decoding() {
    // "AQIDBA==" is the base64 text of [1, 2, 3, 4]; its own bytes would decode differently.
    let a = audio_message("audio_mixed_raw.data", b"AQIDBA==", None).unwrap();
    assert_eq!(a.frames, vec![0x0201, 0x0403]);
}

#[test]
fn substring_search() {
    assert!(contains_text("audio_separate_raw.data", "raw"));
    assert!(contains_text("abc", ""));
    assert!(contains_text("abc", "abc"));
    assert!(!contains_text("ab", "abc"));
    assert!(!contains_text("transcript", "audio"));
}

#[test]
fn decoded_bytes_become_samples_with_participant_key() {
    let a = audio_from_decoded(Some(vec![1, 0, 2, 0]), None).unwrap();
    assert_eq!(a.participant_key, "mixed");
    assert_eq!(a.frames, vec![1, 2]);
    assert!(audio_from_decoded(Some(vec![5]), None).is_none());
    assert!(audio_from_decoded(None, None).is_none());
    let p = Participant { id: Some("7".into()), name: Some("Eve".into()) };
    assert_eq!(audio_from_decoded(Some(vec![0, 0]), Some(p)).unwrap().participant_key, "7");
}
