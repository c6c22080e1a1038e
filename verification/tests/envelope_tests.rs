use whisper_flow::envelope::signal_envelope;
use whisper_flow::math::isqrt64;
use whisper_flow::{MAX_BAR_HEIGHT, MIN_BAR_HEIGHT};

fn samples_of(value: i16, count: usize) -> Vec<u8> {
    let mut v = Vec::new();
    for _ in 0..count {
        let b = value.to_le_bytes();
        v.push(b[0]);
        v.push(b[1]);
    }
    v
}

#[test]
fn silence_sits_on_the_floor() {
    let data = samples_of(0, 1600);
    assert_eq!(signal_envelope(&data, 0, 1600), MIN_BAR_HEIGHT);
}

#[test]
fn empty_segment_sits_on_the_floor() {
    let data = samples_of(12345, 100);
    assert_eq!(signal_envelope(&data, 50, 50), MIN_BAR_HEIGHT);
}

#[test]
fn full_scale_rms_lights_the_bar_fully() {
    // Constant amplitude 3000 gives RMS exactly 3000, the full-scale point.
    let data = samples_of(3000, 1600);
    assert_eq!(signal_envelope(&data, 0, 1600), MAX_BAR_HEIGHT);
    // Negative amplitude squares to the same envelope.
    let data = samples_of(-3000, 1600);
    assert_eq!(signal_envelope(&data, 0, 1600), MAX_BAR_HEIGHT);
}

#[test]
fn louder_than_full_scale_stays_capped() {
    let data = samples_of(30000, 1600);
    assert_eq!(signal_envelope(&data, 0, 1600), MAX_BAR_HEIGHT);
}

#[test]
fn half_scale_rms_compresses_upward() {
    // RMS 1500: normalized 0.5, sqrt-compressed to 0.707, so the bar sits
    // at 3000 + 707 * 17000 / 1000 = 15019 milli.
    let data = samples_of(1500, 1600);
    assert_eq!(signal_envelope(&data, 0, 1600), 15019);
}

#[test]
fn envelope_is_always_displayable() {
    for &v in &[0i16, 1, -1, 7, 300, -3000, 2999, 3001, 32767, -32768] {
        let data = samples_of(v, 160);
        let h = signal_envelope(&data, 0, 160);
        assert!(h >= MIN_BAR_HEIGHT && h <= MAX_BAR_HEIGHT, "value {v} gave {h}");
        let h = signal_envelope(&data, 3, 17);
        assert!(h >= MIN_BAR_HEIGHT && h <= MAX_BAR_HEIGHT);
    }
}

#[test]
fn integer_square_root_floors() {
    assert_eq!(isqrt64(0), 0);
    assert_eq!(isqrt64(1), 1);
    assert_eq!(isqrt64(24), 4);
    assert_eq!(isqrt64(25), 5);
    assert_eq!(isqrt64(9_000_000), 3000);
    assert_eq!(isqrt64(499_999), 707);
    assert_eq!(isqrt64(u64::MAX), 4294967295);
}
