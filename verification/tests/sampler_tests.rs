use whisper_flow::sampler::read_window;
use whisper_flow::state::{Mode, OverlayState};
use whisper_flow::{MAX_BAR_HEIGHT, MIN_BAR_HEIGHT, NUM_BARS};

fn bytes_of(value: i16, count: usize) -> Vec<u8> {
    let mut v = Vec::new();
    for _ in 0..count {
        let b = value.to_le_bytes();
        v.push(b[0]);
        v.push(b[1]);
    }
    v
}

#[test]
fn streams_shorter_than_48_bytes_are_ignored() {
    assert_eq!(read_window(0), None);
    assert_eq!(read_window(44), None);
    assert_eq!(read_window(47), None);
}

#[test]
fn window_skips_the_header_and_caps_at_3200() {
    assert_eq!(read_window(48), Some((44, 4)));
    assert_eq!(read_window(100), Some((44, 56)));
    assert_eq!(read_window(3244), Some((44, 3200)));
    assert_eq!(read_window(3245), Some((45, 3200)));
    assert_eq!(read_window(10000), Some((6800, 3200)));
}

#[test]
fn a_48_byte_silent_stream_floors_every_target() {
    // 48-byte stream: the window is its last 4 bytes, two silent samples.
    let mut s = OverlayState::new(true);
    s.target_heights = vec![15000; NUM_BARS];
    let (_, len) = read_window(48).unwrap();
    let data = bytes_of(0, (len / 2) as usize);
    s.apply_audio(&data);
    assert_eq!(s.target_heights, vec![MIN_BAR_HEIGHT; NUM_BARS]);
}

#[test]
fn short_reads_change_nothing_across_repeated_polls() {
    let mut s = OverlayState::new(true);
    s.target_heights = vec![15000; NUM_BARS];
    for _ in 0..3 {
        s.apply_audio(&vec![]);
        s.apply_audio(&vec![1, 2, 3]);
        assert_eq!(s.target_heights, vec![15000; NUM_BARS]);
        assert_eq!(s.bar_heights, vec![MIN_BAR_HEIGHT; NUM_BARS]);
    }
}

#[test]
fn full_scale_audio_lights_every_bar() {
    let mut s = OverlayState::new(true);
    let data = bytes_of(3000, 1600);
    s.apply_audio(&data);
    assert_eq!(s.target_heights, vec![MAX_BAR_HEIGHT; NUM_BARS]);
    // Displayed heights move only on animation ticks.
    assert_eq!(s.bar_heights, vec![MIN_BAR_HEIGHT; NUM_BARS]);
}

#[test]
fn tail_bars_floor_when_the_stream_is_very_short() {
    // Four loud samples: segments of one sample feed bars 0..4, the rest
    // start past the last sample and sit on the floor.
    let mut s = OverlayState::new(true);
    let data = bytes_of(30000, 4);
    s.apply_audio(&data);
    for i in 0..4 {
        assert_eq!(s.target_heights[i], MAX_BAR_HEIGHT);
    }
    for i in 4..NUM_BARS {
        assert_eq!(s.target_heights[i], MIN_BAR_HEIGHT);
    }
}

#[test]
fn only_a_visible_recording_overlay_wants_audio() {
    let mut s = OverlayState::new(true);
    assert!(s.wants_audio());
    s.mode = Mode::Transcribing;
    assert!(!s.wants_audio());
    s.mode = Mode::Recording;
    s.visible = false;
    assert!(!s.wants_audio());
}
