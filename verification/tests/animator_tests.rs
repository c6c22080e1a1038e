use whisper_flow::state::{Mode, OverlayState};
use whisper_flow::animator::wave_milli;
use whisper_flow::{IDLE_CEILING, MAX_BAR_HEIGHT, MIN_BAR_HEIGHT, NUM_BARS};

fn recording_state() -> OverlayState {
    let mut s = OverlayState::new(true);
    s.mode = Mode::Recording;
    s
}

#[test]
fn one_smoothing_step_is_three_tenths_of_the_gap() {
    // target 20.0, height 3.0, factor 0.3: one tick lands on 8.1 exactly.
    let mut s = recording_state();
    s.target_heights = vec![20000; NUM_BARS];
    assert_eq!(s.bar_heights, vec![3000; NUM_BARS]);
    let repaint = s.animation_tick();
    assert!(repaint);
    assert_eq!(s.bar_heights, vec![8100; NUM_BARS]);
}

#[test]
fn smoothing_converges_and_snaps_exactly() {
    let mut s = recording_state();
    s.target_heights = vec![20000; NUM_BARS];
    let mut ticks = 0;
    while s.bar_heights[0] != 20000 {
        s.animation_tick();
        ticks += 1;
        assert!(ticks <= 200, "smoothing did not converge");
    }
    assert_eq!(s.bar_heights, vec![20000; NUM_BARS]);
    // Once settled, a tick keeps the heights and asks for no repaint.
    let repaint = s.animation_tick();
    assert!(!repaint);
    assert_eq!(s.bar_heights, vec![20000; NUM_BARS]);
}

#[test]
fn smoothing_downward_mirrors_upward() {
    let mut s = recording_state();
    s.bar_heights = vec![20000; NUM_BARS];
    s.target_heights = vec![3000; NUM_BARS];
    s.animation_tick();
    assert_eq!(s.bar_heights, vec![20000 - 5100; NUM_BARS]);
}

#[test]
fn hidden_overlay_ticks_do_nothing() {
    let mut s = recording_state();
    s.visible = false;
    s.target_heights = vec![20000; NUM_BARS];
    let repaint = s.animation_tick();
    assert!(!repaint);
    assert_eq!(s.bar_heights, vec![3000; NUM_BARS]);
}

#[test]
fn idle_wave_stays_between_floor_and_idle_ceiling() {
    let mut s = OverlayState::new(true);
    s.mode = Mode::Transcribing;
    for _ in 0..500 {
        let repaint = s.animation_tick();
        assert!(repaint, "the idle wave is always in motion");
        for i in 0..NUM_BARS {
            assert!(s.target_heights[i] >= MIN_BAR_HEIGHT);
            assert!(s.target_heights[i] <= IDLE_CEILING);
            assert!(s.target_heights[i] <= MAX_BAR_HEIGHT);
        }
    }
}

#[test]
fn idle_targets_follow_the_wave_formula() {
    let mut s = OverlayState::new(true);
    s.mode = Mode::Transcribing;
    s.animation_tick();
    assert_eq!(s.idle_phase, 60);
    for i in 0..NUM_BARS {
        let w = wave_milli(60 + 450 * (i as u32));
        let expected = MIN_BAR_HEIGHT + (w as i32) * 4000 / 1000;
        assert_eq!(s.target_heights[i], expected);
    }
    assert_eq!(s.target_heights[0], 5148);
}

#[test]
fn wave_milli_hits_its_extremes() {
    assert_eq!(wave_milli(0), 500);
    assert_eq!(wave_milli(1571), 1000);
    assert_eq!(wave_milli(4713), 0);
    assert_eq!(wave_milli(6284), 500);
    for x in 0..7000u32 {
        assert!(wave_milli(x) <= 1000);
    }
}

#[test]
fn idle_phase_wraps_within_one_turn() {
    let mut s = OverlayState::new(true);
    s.mode = Mode::Transcribing;
    for _ in 0..300 {
        s.animation_tick();
        assert!(s.idle_phase < 6284);
    }
}
