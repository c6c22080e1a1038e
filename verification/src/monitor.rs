//! Polling the external state marker: its existence decides visibility, its
//! trimmed text decides the mode, and a show transition resets the bars.

use vstd::prelude::*;

use crate::state::floor_heights;
use crate::state::Mode;
use crate::state::OverlayState;
use crate::MIN_BAR_HEIGHT;
use crate::NUM_BARS;

verus! {

/// One observation of the state marker file, as the polling loop saw it.
#[derive(Debug)]
pub enum MarkerStatus {
    /// The marker file does not exist: no activity is occurring.
    Absent,
    /// The marker exists but its content could not be read (a transient race
    /// with the external writer): activity, but no mode information.
    Unreadable,
    /// The marker exists with this content.
    Present(Vec<u8>),
}

/// What the poll asks of the external rendering surface.
#[derive(Clone, Copy, PartialEq, Eq, Structural, Debug)]
pub enum SurfaceAction {
    /// Show the overlay surface.
    ShowSurface,
    /// Hide the overlay surface.
    HideSurface,
    /// Leave the surface as it is.
    NoChange,
}

/// ASCII whitespace, as trimmed from the marker text.
pub open spec fn is_marker_space(b: u8) -> bool {
    b == 32 || b == 9 || b == 10 || b == 13
}

/// Index of the first non-whitespace byte at or after `i`, or the length.
pub open spec fn first_non_space(s: Seq<u8>, i: int) -> int
    decreases s.len() - i,
{
    if i < 0 || i >= s.len() {
        s.len() as int
    } else if is_marker_space(s[i]) {
        first_non_space(s, i + 1)
    } else {
        i
    }
}

/// One past the last non-whitespace byte strictly before `i`, or zero.
pub open spec fn trail_end(s: Seq<u8>, i: int) -> int
    decreases i,
{
    if i <= 0 {
        0
    } else if is_marker_space(s[i - 1]) {
        trail_end(s, i - 1)
    } else {
        i
    }
}

/// The marker content with leading and trailing ASCII whitespace removed.
pub open spec fn trimmed(s: Seq<u8>) -> Seq<u8> {
    let lo = first_non_space(s, 0);
    if lo == s.len() {
        Seq::empty()
    } else {
        s.subrange(lo, trail_end(s, s.len() as int))
    }
}

/// The bytes of the marker text that selects recording mode.
pub open spec fn recording_bytes() -> Seq<u8> {
    seq![114u8, 101u8, 99u8, 111u8, 114u8, 100u8, 105u8, 110u8, 103u8]
}

/// The bytes of the marker text that selects transcribing mode.
pub open spec fn transcribing_bytes() -> Seq<u8> {
    seq![116u8, 114u8, 97u8, 110u8, 115u8, 99u8, 114u8, 105u8, 98u8, 105u8, 110u8, 103u8]
}

/// Mode selected by a marker's content: its trimmed text, when it is one of
/// the two known words; anything else carries no information.
pub open spec fn parse_marker_spec(s: Seq<u8>) -> Option<Mode> {
    if trimmed(s) == transcribing_bytes() {
        Some(Mode::Transcribing)
    } else if trimmed(s) == recording_bytes() {
        Some(Mode::Recording)
    } else {
        None
    }
}

/// `first_non_space` walks over whitespace only, and stops on a
/// non-whitespace byte or the end.
proof fn lemma_first_non_space(s: Seq<u8>, i: int)
    requires
        0 <= i <= s.len(),
    ensures
        i <= first_non_space(s, i) <= s.len(),
        forall|k: int| i <= k < first_non_space(s, i) ==> is_marker_space(#[trigger] s[k]),
        first_non_space(s, i) < s.len() ==> !is_marker_space(s[first_non_space(s, i)]),
    decreases s.len() - i,
{
    if i < s.len() && is_marker_space(s[i]) {
        lemma_first_non_space(s, i + 1);
    }
}

/// `trail_end` walks back over whitespace only, and stops after a
/// non-whitespace byte or at the start.
proof fn lemma_trail_end(s: Seq<u8>, i: int)
    requires
        0 <= i <= s.len(),
    ensures
        0 <= trail_end(s, i) <= i,
        forall|k: int| trail_end(s, i) <= k < i ==> is_marker_space(#[trigger] s[k]),
        trail_end(s, i) > 0 ==> !is_marker_space(s[trail_end(s, i) - 1]),
    decreases i,
{
    if i > 0 && is_marker_space(s[i - 1]) {
        lemma_trail_end(s, i - 1);
    }
}

/// Whether `content[lo..hi]` spells the recording marker word.
fn matches_recording(content: &Vec<u8>, lo: usize, hi: usize) -> (r: bool)
    requires
        lo <= hi <= content@.len(),
    ensures
        r == (content@.subrange(lo as int, hi as int) == recording_bytes()),
{
    let ghost sub = content@.subrange(lo as int, hi as int);
    if hi - lo != 9 {
        proof {
            assert(recording_bytes().len() == 9);
        }
        return false;
    }
    let r = content[lo] == 114 && content[lo + 1] == 101 && content[lo + 2] == 99 && content[lo
        + 3] == 111 && content[lo + 4] == 114 && content[lo + 5] == 100 && content[lo + 6] == 105
        && content[lo + 7] == 110 && content[lo + 8] == 103;
    proof {
        if r {
            assert(sub =~= recording_bytes());
        }
        if sub == recording_bytes() {
            assert(content@[lo as int] == sub[0]);
            assert(content@[lo + 1] == sub[1]);
            assert(content@[lo + 2] == sub[2]);
            assert(content@[lo + 3] == sub[3]);
            assert(content@[lo + 4] == sub[4]);
            assert(content@[lo + 5] == sub[5]);
            assert(content@[lo + 6] == sub[6]);
            assert(content@[lo + 7] == sub[7]);
            assert(content@[lo + 8] == sub[8]);
        }
    }
    r
}

/// Whether `content[lo..hi]` spells the transcribing marker word.
fn matches_transcribing(content: &Vec<u8>, lo: usize, hi: usize) -> (r: bool)
    requires
        lo <= hi <= content@.len(),
    ensures
        r == (content@.subrange(lo as int, hi as int) == transcribing_bytes()),
{
    let ghost sub = content@.subrange(lo as int, hi as int);
    if hi - lo != 12 {
        proof {
            assert(transcribing_bytes().len() == 12);
        }
        return false;
    }
    let r = content[lo] == 116 && content[lo + 1] == 114 && content[lo + 2] == 97 && content[lo
        + 3] == 110 && content[lo + 4] == 115 && content[lo + 5] == 99 && content[lo + 6] == 114
        && content[lo + 7] == 105 && content[lo + 8] == 98 && content[lo + 9] == 105 && content[lo
        + 10] == 110 && content[lo + 11] == 103;
    proof {
        if r {
            assert(sub =~= transcribing_bytes());
        }
        if sub == transcribing_bytes() {
            assert(content@[lo as int] == sub[0]);
            assert(content@[lo + 1] == sub[1]);
            assert(content@[lo + 2] == sub[2]);
            assert(content@[lo + 3] == sub[3]);
            assert(content@[lo + 4] == sub[4]);
            assert(content@[lo + 5] == sub[5]);
            assert(content@[lo + 6] == sub[6]);
            assert(content@[lo + 7] == sub[7]);
            assert(content@[lo + 8] == sub[8]);
            assert(content@[lo + 9] == sub[9]);
            assert(content@[lo + 10] == sub[10]);
            assert(content@[lo + 11] == sub[11]);
        }
    }
    r
}

/// Is this byte ASCII whitespace?
fn is_space_byte(b: u8) -> (r: bool)
    ensures
        r == is_marker_space(b),
{
    b == 32 || b == 9 || b == 10 || b == 13
}

/// Mode selected by the marker's content, if its trimmed text is one of the
/// two known words.
pub fn parse_marker(content: &Vec<u8>) -> (m: Option<Mode>)
    ensures
        m == parse_marker_spec(content@),
{
    let ghost s = content@;
    let n = content.len();
    let mut lo: usize = 0;
    while lo < n && is_space_byte(content[lo])
        invariant
            0 <= lo <= n,
            n == s.len(),
            s == content@,
            first_non_space(s, 0) == first_non_space(s, lo as int),
        decreases n - lo,
    {
        lo = lo + 1;
    }
    proof {
        lemma_first_non_space(s, lo as int);
        assert(first_non_space(s, 0) == lo as int);
    }
    if lo == n {
        proof {
            assert(trimmed(s).len() == 0);
            assert(transcribing_bytes().len() == 12);
            assert(recording_bytes().len() == 9);
        }
        return None;
    }
    let mut hi: usize = n;
    while hi > lo && is_space_byte(content[hi - 1])
        invariant
            lo < hi <= n,
            lo < n,
            n == s.len(),
            s == content@,
            !is_marker_space(s[lo as int]),
            trail_end(s, n as int) == trail_end(s, hi as int),
        decreases hi,
    {
        proof {
            if hi - 1 == lo {
                assert(false);
            }
        }
        hi = hi - 1;
    }
    proof {
        assert(hi > lo);
        assert(trail_end(s, hi as int) == hi as int);
        assert(trimmed(s) == s.subrange(lo as int, hi as int));
    }
    if matches_transcribing(content, lo, hi) {
        Some(Mode::Transcribing)
    } else if matches_recording(content, lo, hi) {
        Some(Mode::Recording)
    } else {
        None
    }
}

impl OverlayState {
    /// Makes the overlay visible if it is hidden, clearing any stale bars
    /// down to the floor first, and says whether the surface must be shown.
    fn show_if_hidden(&mut self) -> (act: SurfaceAction)
        requires
            old(self).wf(),
        ensures
            final(self).wf(),
            final(self).mode == old(self).mode,
            final(self).idle_phase == old(self).idle_phase,
            final(self).visible,
            old(self).visible ==> *final(self) == *old(self) && act == SurfaceAction::NoChange,
            !old(self).visible ==> act == SurfaceAction::ShowSurface && (forall|i: int|
                0 <= i < NUM_BARS ==> #[trigger] final(self).bar_heights@[i] == MIN_BAR_HEIGHT)
                && (forall|i: int|
                0 <= i < NUM_BARS ==> #[trigger] final(self).target_heights@[i]
                    == MIN_BAR_HEIGHT),
    {
        if self.visible {
            SurfaceAction::NoChange
        } else {
            self.visible = true;
            self.bar_heights = floor_heights();
            self.target_heights = floor_heights();
            SurfaceAction::ShowSurface
        }
    }

    /// One poll of the state marker. A present marker makes the overlay
    /// visible (resetting stale bars on the transition) and, when its
    /// trimmed text is a known mode word, switches the mode; unknown or
    /// unreadable content leaves the last known mode standing. An absent
    /// marker hides a visible overlay and does nothing to a hidden one.
    /// The returned action is what the rendering surface must now do.
    pub fn activity_poll(&mut self, marker: MarkerStatus) -> (act: SurfaceAction)
        requires
            old(self).wf(),
        ensures
            final(self).wf(),
            final(self).idle_phase == old(self).idle_phase,
            match marker {
                MarkerStatus::Present(c) => final(self).mode == (match parse_marker_spec(c@) {
                    Some(m) => m,
                    None => old(self).mode,
                }),
                _ => final(self).mode == old(self).mode,
            },
            marker is Absent ==> {
                &&& !final(self).visible
                &&& final(self).bar_heights@ == old(self).bar_heights@
                &&& final(self).target_heights@ == old(self).target_heights@
                &&& act == (if old(self).visible {
                    SurfaceAction::HideSurface
                } else {
                    SurfaceAction::NoChange
                })
            },
            !(marker is Absent) ==> {
                &&& final(self).visible
                &&& (old(self).visible ==> act == SurfaceAction::NoChange
                    && final(self).bar_heights@ == old(self).bar_heights@
                    && final(self).target_heights@ == old(self).target_heights@)
                &&& (!old(self).visible ==> act == SurfaceAction::ShowSurface && (forall|i: int|
                    0 <= i < NUM_BARS ==> #[trigger] final(self).bar_heights@[i]
                        == MIN_BAR_HEIGHT) && (forall|i: int|
                    0 <= i < NUM_BARS ==> #[trigger] final(self).target_heights@[i]
                        == MIN_BAR_HEIGHT))
            },
    {
        match marker {
            MarkerStatus::Absent => {
                if self.visible {
                    self.visible = false;
                    SurfaceAction::HideSurface
                } else {
                    SurfaceAction::NoChange
                }
            },
            MarkerStatus::Unreadable => self.show_if_hidden(),
            MarkerStatus::Present(c) => {
                match parse_marker(&c) {
                    Some(m) => {
                        self.mode = m;
                    },
                    None => {},
                }
                self.show_if_hidden()
            },
        }
    }
}

} // verus!
