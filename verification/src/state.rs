//! The single mutable record the three periodic tasks share, and its
//! well-formedness invariant.

use vstd::prelude::*;

use crate::MAX_BAR_HEIGHT;
use crate::MIN_BAR_HEIGHT;
use crate::NUM_BARS;
use crate::WAVE_PERIOD;

verus! {

/// Which amplitude-generation strategy is active.
#[derive(Clone, Copy, PartialEq, Eq, Structural, Debug)]
pub enum Mode {
    /// Live microphone amplitude drives the bars.
    Recording,
    /// A self-driven idle wave drives the bars.
    Transcribing,
}

/// A height is displayable when it lies between the floor and the ceiling.
pub open spec fn in_display_range(h: int) -> bool {
    MIN_BAR_HEIGHT <= h <= MAX_BAR_HEIGHT
}

/// State of the overlay, owned by the scheduling loop and borrowed
/// exclusively by one periodic task at a time. Heights are in milli-units,
/// the idle phase in milliradians.
pub struct OverlayState {
    /// Current amplitude-generation strategy.
    pub mode: Mode,
    /// Whether the overlay surface is shown; hidden ticks do no visible work.
    pub visible: bool,
    /// Currently displayed per-bar heights.
    pub bar_heights: Vec<i32>,
    /// Heights the animator relaxes the displayed ones toward.
    pub target_heights: Vec<i32>,
    /// Accumulated idle-wave phase, kept below one full turn.
    pub idle_phase: u32,
}

impl OverlayState {
    /// Well-formedness: both height vectors have one entry per bar, every
    /// entry is displayable, and the idle phase stays below a full turn.
    pub open spec fn wf(self) -> bool {
        &&& self.bar_heights@.len() == NUM_BARS
        &&& self.target_heights@.len() == NUM_BARS
        &&& forall|i: int|
            0 <= i < NUM_BARS ==> in_display_range(#[trigger] self.bar_heights@[i] as int)
        &&& forall|i: int|
            0 <= i < NUM_BARS ==> in_display_range(#[trigger] self.target_heights@[i] as int)
        &&& self.idle_phase < WAVE_PERIOD
    }

    /// Fresh state: recording, all bars at the floor, phase zero; whether the
    /// overlay starts shown is decided by whoever saw the state marker.
    pub fn new(visible: bool) -> (s: Self)
        ensures
            s.wf(),
            s.mode == Mode::Recording,
            s.visible == visible,
            s.idle_phase == 0,
            forall|i: int| 0 <= i < NUM_BARS ==> #[trigger] s.bar_heights@[i] == MIN_BAR_HEIGHT,
            forall|i: int| 0 <= i < NUM_BARS ==> #[trigger] s.target_heights@[i] == MIN_BAR_HEIGHT,
    {
        OverlayState {
            mode: Mode::Recording,
            visible,
            bar_heights: floor_heights(),
            target_heights: floor_heights(),
            idle_phase: 0,
        }
    }
}

/// One floor-level entry per bar.
pub fn floor_heights() -> (v: Vec<i32>)
    ensures
        v@.len() == NUM_BARS,
        forall|i: int| 0 <= i < NUM_BARS ==> #[trigger] v@[i] == MIN_BAR_HEIGHT,
{
    let mut v: Vec<i32> = Vec::new();
    let mut i: usize = 0;
    while i < NUM_BARS
        invariant
            i <= NUM_BARS,
            v@.len() == i,
            forall|k: int| 0 <= k < i ==> #[trigger] v@[k] == MIN_BAR_HEIGHT,
        decreases NUM_BARS - i,
    {
        v.push(MIN_BAR_HEIGHT);
        i = i + 1;
    }
    v
}

} // verus!
