use phonix::Error;

#[test]
fn error_display_includes_context() {
    let e = Error::ModelLoad("bad path".into());
    assert_eq!(e.to_string(), "failed to load model: bad path");
}

#[test]
fn every_error_kind_has_its_prefix() {
    assert_eq!(Error::ModelShape("x".into()).to_string(), "unexpected model tensor shape: x");
    assert_eq!(Error::Inference("y".into()).to_string(), "inference failed: y");
    assert_eq!(Error::Audio("z".into()).to_string(), "audio device error: z");
    assert_eq!(Error::Resample("r".into()).to_string(), "resample error: r");
    assert_eq!(Error::Wav("w".into()).to_string(), "wav error: w");
}
