use batch_client::audio::le_i16_samples;

#[test]
fn decodes_little_endian_pairs() {
    let samples = le_i16_samples(&[0x34, 0x12, 0xff, 0xff, 0x00, 0x80, 0xff, 0x7f]);
    assert_eq!(samples, vec![0x1234, -1, -32768, 32767]);
}

#[test]
fn empty_audio_has_no_samples() {
    let samples = le_i16_samples(&[]);
    assert!(samples.is_empty());
}

#[test]
fn a_trailing_odd_byte_is_dropped() {
    let samples = le_i16_samples(&[0x01, 0x00, 0x7f]);
    assert_eq!(samples, vec![1]);
}
