//! Per-tick animation: first-order exponential smoothing of the displayed
//! heights toward their targets, and the self-driven sine-like idle wave
//! that replaces the targets while a transcription runs.

use vstd::prelude::*;

use crate::math::lemma_div_le;
use crate::math::lemma_mul_div_exact;
use crate::state::in_display_range;
use crate::state::Mode;
use crate::state::OverlayState;
use crate::BAR_PHASE_OFFSET;
use crate::IDLE_CEILING;
use crate::MILLI;
use crate::MIN_BAR_HEIGHT;
use crate::NUM_BARS;
use crate::PHASE_STEP;
use crate::SMOOTHING_DENOM;
use crate::SMOOTHING_NUMER;
use crate::SNAP_THRESHOLD;
use crate::WAVE_HALF_PERIOD;
use crate::WAVE_PERIOD;

verus! {

/// One smoothing step: move 3/10 of the remaining gap toward the target,
/// or snap exactly onto it once the gap is within the snap threshold of
/// 0.3 units (so heights never creep asymptotically without arriving).
pub open spec fn smooth_step(h: int, t: int) -> int {
    let d = t - h;
    if d > 300 {
        h + d * 3 / 10
    } else if d < -300 {
        h - (-d) * 3 / 10
    } else {
        t
    }
}

/// Whether some bar is far enough from its target that a smoothing step
/// (rather than a snap) happens on the next tick.
pub open spec fn needs_step(h: int, t: int) -> bool {
    t - h > 300 || t - h < -300
}

/// Whether any bar of `h` still takes a smoothing step toward `t`.
pub open spec fn any_needs_step(h: Seq<i32>, t: Seq<i32>) -> bool {
    exists|i: int| 0 <= i < h.len() && #[trigger] needs_step(h[i] as int, t[i] as int)
}

/// Positive half-wave of the idle oscillation: a parabolic arch through 0 at
/// `r == 0` and `r == 3142` that peaks at exactly 1000 milli in the middle.
pub open spec fn wave_lobe(r: int) -> int {
    4000 * r * (3142 - r) / 9872164
}

/// Sine-like oscillation in milli, with a period of one full turn of 6284
/// milliradians: the positive arch over the first half-turn, its mirror
/// image below zero over the second.
pub open spec fn sin_milli(x: int) -> int {
    let r = x % 6284;
    if r < 3142 {
        wave_lobe(r)
    } else {
        -wave_lobe(r - 3142)
    }
}

/// The oscillation shifted and scaled into `[0, 1000]` milli.
pub open spec fn wave_milli_spec(x: int) -> int {
    (1000 + sin_milli(x)) / 2
}

/// Idle target of bar `i` at a given phase: the wave, offset by 0.45 rad per
/// bar index, scaled onto `[MIN_BAR_HEIGHT, IDLE_CEILING]` — the idle wave
/// tops out at 35% of the recording-mode ceiling.
pub open spec fn idle_target(phase: int, i: int) -> int {
    MIN_BAR_HEIGHT + wave_milli_spec(phase + 450 * i) * ((IDLE_CEILING - MIN_BAR_HEIGHT) as int)
        / 1000
}

/// The half-wave stays within `[0, 1000]` milli on its half-turn.
pub proof fn lemma_lobe_range(r: int)
    requires
        0 <= r <= 3142,
    ensures
        0 <= wave_lobe(r) <= 1000,
{
    assert(0 <= 4000 * r * (3142 - r) <= 9872164000) by (nonlinear_arith)
        requires 0 <= r <= 3142;
    lemma_div_le(4000 * r * (3142 - r), 9872164000, 9872164);
    vstd::arithmetic::div_mod::lemma_div_pos_is_pos(4000 * r * (3142 - r), 9872164);
    lemma_mul_div_exact(1000, 9872164);
}

/// The shifted wave stays within `[0, 1000]` milli everywhere.
pub proof fn lemma_wave_range(x: int)
    ensures
        0 <= wave_milli_spec(x) <= 1000,
{
    let r = x % 6284;
    vstd::arithmetic::div_mod::lemma_mod_division_less_than_divisor(x, 6284);
    if r < 3142 {
        lemma_lobe_range(r);
    } else {
        lemma_lobe_range(r - 3142);
    }
    lemma_div_le(0, 1000 + sin_milli(x), 2);
    lemma_div_le(1000 + sin_milli(x), 2000, 2);
}

/// The idle wave keeps every bar between the floor and the idle ceiling of
/// 35% of the recording-mode maximum, whatever the phase and the bar.
pub proof fn lemma_idle_target_range(phase: int, i: int)
    ensures
        MIN_BAR_HEIGHT <= idle_target(phase, i) <= IDLE_CEILING,
        in_display_range(idle_target(phase, i)),
{
    let w = wave_milli_spec(phase + 450 * i);
    lemma_wave_range(phase + 450 * i);
    let span = (IDLE_CEILING - MIN_BAR_HEIGHT) as int;
    assert(0 <= w * span <= 4000000) by (nonlinear_arith)
        requires 0 <= w <= 1000, span == 4000;
    vstd::arithmetic::div_mod::lemma_div_pos_is_pos(w * span, 1000);
    lemma_div_le(w * span, 4000000, 1000);
    lemma_mul_div_exact(4000, 1000);
}

/// A smoothing step lands between the old height and the target, so it keeps
/// heights displayable; and once the gap is within the snap threshold, the
/// step is exact.
pub proof fn lemma_smooth_step_bounds(h: int, t: int)
    ensures
        h <= t ==> h <= smooth_step(h, t) <= t,
        t <= h ==> t <= smooth_step(h, t) <= h,
        in_display_range(h) && in_display_range(t) ==> in_display_range(smooth_step(h, t)),
        -300 <= t - h <= 300 ==> smooth_step(h, t) == t,
        needs_step(h, t) ==> (if t - h >= 0 { t - smooth_step(h, t) } else { smooth_step(h, t) - t })
            <= (if t - h >= 0 { t - h } else { h - t }) - 90,
{
    let d = t - h;
    if d > 300 {
        lemma_div_le(903, d * 3, 10);
        lemma_div_le(d * 3, d * 10, 10);
        lemma_mul_div_exact(d, 10);
        assert(d * 3 >= 903 && d * 3 <= d * 10) by (nonlinear_arith)
            requires d >= 301;
        assert(903int / 10 == 90) by {
            vstd::arithmetic::div_mod::lemma_fundamental_div_mod_converse(903, 10, 90, 3);
        }
    } else if d < -300 {
        let m = -d;
        lemma_div_le(903, m * 3, 10);
        lemma_div_le(m * 3, m * 10, 10);
        lemma_mul_div_exact(m, 10);
        assert(m * 3 >= 903 && m * 3 <= m * 10) by (nonlinear_arith)
            requires m >= 301;
        assert(903int / 10 == 90) by {
            vstd::arithmetic::div_mod::lemma_fundamental_div_mod_converse(903, 10, 90, 3);
        }
    }
}

/// Repeated smoothing from `h` toward `t`, `n` ticks of it.
pub open spec fn smooth_iter(h: int, t: int, n: nat) -> int
    decreases n,
{
    if n == 0 {
        h
    } else {
        smooth_step(smooth_iter(h, t, (n - 1) as nat), t)
    }
}

/// Iterating one more tick is the same as starting one step closer.
proof fn lemma_smooth_iter_shift(h: int, t: int, n: nat)
    ensures
        smooth_iter(h, t, n + 1) == smooth_iter(smooth_step(h, t), t, n),
    decreases n,
{
    let h2 = smooth_step(h, t);
    if n == 0 {
        assert(smooth_iter(h, t, 1) == smooth_step(smooth_iter(h, t, 0), t));
        assert(smooth_iter(h2, t, 0) == h2);
    } else {
        lemma_smooth_iter_shift(h, t, (n - 1) as nat);
        assert(smooth_iter(h, t, n + 1) == smooth_step(smooth_iter(h, t, (n + 1 - 1) as nat), t));
        assert(smooth_iter(h2, t, n) == smooth_step(smooth_iter(h2, t, (n - 1) as nat), t));
    }
}

/// Smoothing converges: from any displayable height and target, finitely
/// many ticks reach the target exactly — each step shrinks the gap by at
/// least 90 milli until the snap closes it.
pub proof fn lemma_smoothing_converges(h: int, t: int)
    requires
        in_display_range(h),
        in_display_range(t),
    ensures
        exists|n: nat| smooth_iter(h, t, n) == t,
    decreases (if t - h >= 0 { t - h } else { h - t }),
{
    lemma_smooth_step_bounds(h, t);
    if -300 <= t - h <= 300 {
        assert(smooth_iter(h, t, 1) == smooth_step(smooth_iter(h, t, 0), t));
        assert(smooth_iter(h, t, 1nat) == t);
    } else {
        let h2 = smooth_step(h, t);
        lemma_smoothing_converges(h2, t);
        let n = choose|n: nat| smooth_iter(h2, t, n) == t;
        lemma_smooth_iter_shift(h, t, n);
        assert(smooth_iter(h, t, n + 1) == t);
    }
}

impl OverlayState {
    /// One animation tick. A hidden overlay does nothing. Otherwise every
    /// displayed height takes one smoothing step toward its target (with the
    /// targets read before any idle update, as they stood when the tick
    /// began); then, while transcribing, the idle phase advances by 0.06 rad
    /// and the targets are overwritten with the idle wave, ignoring audio
    /// entirely. A repaint is due when some height actually stepped, and
    /// always while transcribing, since the idle wave is always in motion.
    pub fn animation_tick(&mut self) -> (repaint: bool)
        requires
            old(self).wf(),
        ensures
            final(self).wf(),
            final(self).mode == old(self).mode,
            final(self).visible == old(self).visible,
            !old(self).visible ==> *final(self) == *old(self) && !repaint,
            old(self).visible ==> forall|i: int|
                0 <= i < NUM_BARS ==> #[trigger] final(self).bar_heights@[i] as int
                    == smooth_step(
                    old(self).bar_heights@[i] as int,
                    old(self).target_heights@[i] as int,
                ),
            old(self).visible && old(self).mode == Mode::Recording ==> {
                &&& final(self).target_heights@ == old(self).target_heights@
                &&& final(self).idle_phase == old(self).idle_phase
                &&& repaint == any_needs_step(old(self).bar_heights@, old(self).target_heights@)
            },
            old(self).visible && old(self).mode == Mode::Transcribing ==> {
                &&& final(self).idle_phase as int == (old(self).idle_phase + 60) % 6284
                &&& forall|i: int|
                    0 <= i < NUM_BARS ==> #[trigger] final(self).target_heights@[i] as int
                        == idle_target(final(self).idle_phase as int, i)
                &&& repaint
            },
    {
        if !self.visible {
            return false;
        }
        let ghost h0 = self.bar_heights@;
        let ghost t0 = self.target_heights@;
        let mut changed = false;
        let mut i: usize = 0;
        while i < NUM_BARS
            invariant
                i <= NUM_BARS,
                self.wf(),
                self.mode == old(self).mode,
                self.visible == old(self).visible,
                self.idle_phase == old(self).idle_phase,
                self.target_heights@ == t0,
                h0.len() == NUM_BARS,
                t0 == old(self).target_heights@,
                h0 == old(self).bar_heights@,
                forall|k: int|
                    0 <= k < i ==> #[trigger] self.bar_heights@[k] as int
                        == smooth_step(h0[k] as int, t0[k] as int),
                forall|k: int| i <= k < NUM_BARS ==> #[trigger] self.bar_heights@[k] == h0[k],
                changed == exists|k: int|
                    0 <= k < i && #[trigger] needs_step(h0[k] as int, t0[k] as int),
            decreases NUM_BARS - i,
        {
            let h = self.bar_heights[i];
            let t = self.target_heights[i];
            proof {
                lemma_smooth_step_bounds(h as int, t as int);
            }
            let d = t - h;
            if d > SNAP_THRESHOLD {
                proof {
                    assert(needs_step(h0[i as int] as int, t0[i as int] as int));
                }
                let step = d * SMOOTHING_NUMER / SMOOTHING_DENOM;
                self.bar_heights.set(i, h + step);
                changed = true;
            } else if d < -SNAP_THRESHOLD {
                proof {
                    assert(needs_step(h0[i as int] as int, t0[i as int] as int));
                }
                let step = (-d) * SMOOTHING_NUMER / SMOOTHING_DENOM;
                self.bar_heights.set(i, h - step);
                changed = true;
            } else {
                proof {
                    assert(!needs_step(h0[i as int] as int, t0[i as int] as int));
                }
                self.bar_heights.set(i, t);
            }
            i = i + 1;
        }
        if self.mode == Mode::Transcribing {
            self.idle_phase = (self.idle_phase + PHASE_STEP) % WAVE_PERIOD;
            let mut i: usize = 0;
            while i < NUM_BARS
                invariant
                    i <= NUM_BARS,
                    self.wf(),
                    self.mode == old(self).mode,
                    self.visible == old(self).visible,
                    self.idle_phase as int == (old(self).idle_phase + 60) % 6284,
                    self.idle_phase < 6284,
                    h0.len() == NUM_BARS,
                    t0.len() == NUM_BARS,
                    self.bar_heights@.len() == NUM_BARS,
                    forall|k: int|
                        0 <= k < NUM_BARS ==> #[trigger] self.bar_heights@[k] as int
                            == smooth_step(h0[k] as int, t0[k] as int),
                    h0 == old(self).bar_heights@,
                    t0 == old(self).target_heights@,
                    forall|k: int|
                        0 <= k < i ==> #[trigger] self.target_heights@[k] as int
                            == idle_target(self.idle_phase as int, k),
                decreases NUM_BARS - i,
            {
                let arg = self.idle_phase + (i as u32) * BAR_PHASE_OFFSET;
                let w = wave_milli(arg);
                proof {
                    lemma_idle_target_range(self.idle_phase as int, i as int);
                }
                let t = MIN_BAR_HEIGHT + ((w as i32) * (IDLE_CEILING - MIN_BAR_HEIGHT)) / MILLI;
                self.target_heights.set(i, t);
                i = i + 1;
            }
            true
        } else {
            changed
        }
    }
}

/// The idle wave in `[0, 1000]` milli at `x` milliradians.
pub fn wave_milli(x: u32) -> (w: u32)
    ensures
        w as int == wave_milli_spec(x as int),
        w <= 1000,
{
    proof {
        lemma_wave_range(x as int);
    }
    let r = x % WAVE_PERIOD;
    if r < WAVE_HALF_PERIOD {
        let num: u64 = 4000u64 * (r as u64) * ((WAVE_HALF_PERIOD - r) as u64);
        proof {
            assert(4000 * (r as int) * (3142 - r as int) <= 9872164000) by (nonlinear_arith)
                requires 0 <= (r as int) < 3142;
        }
        let lobe = num / 9872164;
        proof {
            lemma_div_le(num as int, 9872164000, 9872164);
            lemma_mul_div_exact(1000, 9872164);
        }
        ((1000 + lobe) / 2) as u32
    } else {
        let r2 = r - WAVE_HALF_PERIOD;
        let num: u64 = 4000u64 * (r2 as u64) * ((WAVE_HALF_PERIOD - r2) as u64);
        proof {
            assert(4000 * (r2 as int) * (3142 - r2 as int) <= 9872164000) by (nonlinear_arith)
                requires 0 <= (r2 as int) < 3142;
        }
        let lobe = num / 9872164;
        proof {
            lemma_div_le(num as int, 9872164000, 9872164);
            lemma_mul_div_exact(1000, 9872164);
        }
        ((1000 - lobe) / 2) as u32
    }
}

} // verus!

