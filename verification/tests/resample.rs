use phonix::{MonoPassthrough, Resample};

#[test]
fn identity_path_passes_mono_16k_through() {
    let mut r = MonoPassthrough;
    let out = r.process(&[0.1f32, 0.2, 0.3]).unwrap();
    assert_eq!(out, vec![0.1, 0.2, 0.3]);
}
