use whisper_flow::monitor::{parse_marker, MarkerStatus, SurfaceAction};
use whisper_flow::state::{Mode, OverlayState};
use whisper_flow::animator::wave_milli;
use whisper_flow::{MAX_BAR_HEIGHT, MIN_BAR_HEIGHT, NUM_BARS};

#[test]
fn marker_words_parse_with_surrounding_whitespace() {
    assert_eq!(parse_marker(&b"recording".to_vec()), Some(Mode::Recording));
    assert_eq!(parse_marker(&b"transcribing".to_vec()), Some(Mode::Transcribing));
    assert_eq!(parse_marker(&b"  recording\n".to_vec()), Some(Mode::Recording));
    assert_eq!(parse_marker(&b"\t transcribing \r\n".to_vec()), Some(Mode::Transcribing));
}

#[test]
fn unknown_marker_content_carries_no_mode() {
    assert_eq!(parse_marker(&b"".to_vec()), None);
    assert_eq!(parse_marker(&b"   \n".to_vec()), None);
    assert_eq!(parse_marker(&b"paused".to_vec()), None);
    assert_eq!(parse_marker(&b"recordings".to_vec()), None);
    assert_eq!(parse_marker(&b"recordin".to_vec()), None);
    assert_eq!(parse_marker(&b"Transcribing".to_vec()), None);
    assert_eq!(parse_marker(&vec![0xff, 0xfe, 0x00]), None);
}

#[test]
fn absent_present_absent_drives_visibility_with_a_reset() {
    let mut s = OverlayState::new(false);
    // Leave stale animation state behind, as a previous session would.
    s.bar_heights = vec![12000; NUM_BARS];
    s.target_heights = vec![MAX_BAR_HEIGHT; NUM_BARS];

    let act = s.activity_poll(MarkerStatus::Absent);
    assert_eq!(act, SurfaceAction::NoChange);
    assert!(!s.visible);

    let act = s.activity_poll(MarkerStatus::Present(b"recording".to_vec()));
    assert_eq!(act, SurfaceAction::ShowSurface);
    assert!(s.visible);
    assert_eq!(s.mode, Mode::Recording);
    assert_eq!(s.bar_heights, vec![MIN_BAR_HEIGHT; NUM_BARS]);
    assert_eq!(s.target_heights, vec![MIN_BAR_HEIGHT; NUM_BARS]);

    let act = s.activity_poll(MarkerStatus::Absent);
    assert_eq!(act, SurfaceAction::HideSurface);
    assert!(!s.visible);

    // Already hidden: a second absent poll changes nothing.
    let act = s.activity_poll(MarkerStatus::Absent);
    assert_eq!(act, SurfaceAction::NoChange);
    assert!(!s.visible);
}

#[test]
fn visible_polls_do_not_reset_heights() {
    let mut s = OverlayState::new(true);
    s.bar_heights = vec![12000; NUM_BARS];
    let act = s.activity_poll(MarkerStatus::Present(b"transcribing".to_vec()));
    assert_eq!(act, SurfaceAction::NoChange);
    assert_eq!(s.mode, Mode::Transcribing);
    assert_eq!(s.bar_heights, vec![12000; NUM_BARS]);
}

#[test]
fn unreadable_or_unknown_markers_keep_the_last_mode() {
    let mut s = OverlayState::new(false);
    s.mode = Mode::Transcribing;
    let act = s.activity_poll(MarkerStatus::Unreadable);
    assert_eq!(act, SurfaceAction::ShowSurface);
    assert!(s.visible);
    assert_eq!(s.mode, Mode::Transcribing);

    let act = s.activity_poll(MarkerStatus::Present(b"garbled".to_vec()));
    assert_eq!(act, SurfaceAction::NoChange);
    assert_eq!(s.mode, Mode::Transcribing);
}

fn bytes_of(value: i16, count: usize) -> Vec<u8> {
    let mut v = Vec::new();
    for _ in 0..count {
        let b = value.to_le_bytes();
        v.push(b[0]);
        v.push(b[1]);
    }
    v
}

#[test]
fn recording_to_transcribing_end_to_end() {
    // Marker says "recording"; 1600 samples at constant amplitude 3000 give
    // RMS exactly 3000, so every bar's target is the ceiling at once.
    let mut s = OverlayState::new(false);
    s.activity_poll(MarkerStatus::Present(b"recording".to_vec()));
    assert!(s.visible && s.mode == Mode::Recording);
    assert!(s.wants_audio());
    s.apply_audio(&bytes_of(3000, 1600));
    assert_eq!(s.target_heights, vec![MAX_BAR_HEIGHT; NUM_BARS]);

    // After the marker flips, targets stop depending on audio entirely and
    // follow the deterministic wave formula instead.
    s.activity_poll(MarkerStatus::Present(b"transcribing".to_vec()));
    assert_eq!(s.mode, Mode::Transcribing);
    assert!(!s.wants_audio());
    s.animation_tick();
    for i in 0..NUM_BARS {
        let w = wave_milli(s.idle_phase + 450 * (i as u32));
        assert_eq!(s.target_heights[i], MIN_BAR_HEIGHT + (w as i32) * 4000 / 1000);
    }
}
