//! Turning a trailing window of the live audio stream into per-bar target
//! heights: which byte range to read, and how the bytes read partition into
//! one roughly equal segment per bar.

use vstd::prelude::*;

use crate::envelope::envelope_spec;
use crate::envelope::lemma_envelope_range;
use crate::envelope::signal_envelope;
use crate::state::in_display_range;
use crate::state::Mode;
use crate::state::OverlayState;
use crate::AUDIO_HEADER_BYTES;
use crate::AUDIO_WINDOW_BYTES;
use crate::MIN_BAR_HEIGHT;
use crate::MIN_READ_BYTES;
use crate::MIN_STREAM_BYTES;
use crate::NUM_BARS;

verus! {

/// First byte of the read window: the last 3200 bytes of the stream, but
/// never inside the fixed 44-byte header.
pub open spec fn window_start(file_size: int) -> int {
    if file_size - 3200 > 44 {
        file_size - 3200
    } else {
        44
    }
}

/// Length of the read window: from its first byte to the end of the stream,
/// capped at 3200 bytes.
pub open spec fn window_len(file_size: int) -> int {
    if file_size - window_start(file_size) < 3200 {
        file_size - window_start(file_size)
    } else {
        3200
    }
}

/// Number of whole samples in `n` bytes.
pub open spec fn num_samples_of(n: int) -> int {
    n / 2
}

/// Samples per bar segment: an equal split, but at least one.
pub open spec fn seg_size_of(n: int) -> int {
    if num_samples_of(n) / (NUM_BARS as int) < 1 {
        1
    } else {
        num_samples_of(n) / (NUM_BARS as int)
    }
}

/// Target height of bar `i` for a window of bytes: the envelope of its
/// segment, or the floor when the segment starts past the last sample.
pub open spec fn bar_target(bytes: Seq<u8>, i: int) -> int {
    let ns = num_samples_of(bytes.len() as int);
    let seg = seg_size_of(bytes.len() as int);
    if i * seg >= ns {
        MIN_BAR_HEIGHT as int
    } else {
        let end = if (i + 1) * seg <= ns { (i + 1) * seg } else { ns };
        envelope_spec(bytes, i * seg, end)
    }
}

/// Which byte range of the audio stream the sampling tick should read.
/// Streams shorter than 48 bytes are ignored entirely; the window always
/// starts past the header and never exceeds the reusable buffer's 3200
/// bytes.
pub fn read_window(file_size: u64) -> (r: Option<(u64, u64)>)
    ensures
        r is Some <==> file_size >= 48,
        r matches Some(w) ==> w.0 as int == window_start(file_size as int),
        r matches Some(w) ==> w.1 as int == window_len(file_size as int),
        r matches Some(w) ==> 44 <= w.0 && 4 <= w.1 <= 3200,
{
    if file_size < MIN_STREAM_BYTES {
        return None;
    }
    let start: u64 = if file_size > AUDIO_HEADER_BYTES + AUDIO_WINDOW_BYTES {
        file_size - AUDIO_WINDOW_BYTES
    } else {
        AUDIO_HEADER_BYTES
    };
    let rem = file_size - start;
    let len: u64 = if rem < AUDIO_WINDOW_BYTES {
        rem
    } else {
        AUDIO_WINDOW_BYTES
    };
    Some((start, len))
}

impl OverlayState {
    /// Whether the sampling tick should read audio at all: only a visible,
    /// recording overlay follows the live stream.
    pub fn wants_audio(&self) -> (r: bool)
        ensures
            r == (self.visible && self.mode == Mode::Recording),
    {
        self.visible && self.mode == Mode::Recording
    }

    /// Recomputes every bar's target height from one window of audio bytes.
    /// A read of fewer than 4 bytes is treated as failed and changes
    /// nothing, so a transient race with the stream's writer never flickers
    /// the bars to zero. Displayed heights, mode, visibility and idle phase
    /// are untouched either way.
    pub fn apply_audio(&mut self, data: &Vec<u8>)
        requires
            old(self).wf(),
            data@.len() <= 3200,
        ensures
            final(self).wf(),
            final(self).mode == old(self).mode,
            final(self).visible == old(self).visible,
            final(self).idle_phase == old(self).idle_phase,
            final(self).bar_heights@ == old(self).bar_heights@,
            data@.len() < 4 ==> final(self).target_heights@ == old(self).target_heights@,
            data@.len() >= 4 ==> forall|i: int|
                0 <= i < NUM_BARS ==> #[trigger] final(self).target_heights@[i] as int
                    == bar_target(data@, i),
    {
        if data.len() < MIN_READ_BYTES {
            return;
        }
        let num_samples = data.len() / 2;
        let raw_seg = num_samples / NUM_BARS;
        let seg: usize = if raw_seg < 1 {
            1
        } else {
            raw_seg
        };
        assert(seg == seg_size_of(data@.len() as int));
        let mut i: usize = 0;
        while i < NUM_BARS
            invariant
                i <= NUM_BARS,
                self.wf(),
                self.mode == old(self).mode,
                self.visible == old(self).visible,
                self.idle_phase == old(self).idle_phase,
                self.bar_heights@ == old(self).bar_heights@,
                data@.len() <= 3200,
                4 <= data@.len(),
                num_samples == num_samples_of(data@.len() as int),
                seg == seg_size_of(data@.len() as int),
                1 <= seg <= 1600,
                num_samples <= 1600,
                forall|k: int|
                    0 <= k < i ==> #[trigger] self.target_heights@[k] as int
                        == bar_target(data@, k),
                forall|k: int|
                    i <= k < NUM_BARS ==> #[trigger] self.target_heights@[k]
                        == old(self).target_heights@[k],
            decreases NUM_BARS - i,
        {
            proof {
                assert(0 <= (i as int) * (seg as int) <= 19200 && ((i as int) + 1) * (seg as int)
                    <= 19200) by (nonlinear_arith)
                    requires 0 <= (i as int) < 12, 1 <= (seg as int) <= 1600;
            }
            let start = i * seg;
            if start >= num_samples {
                self.target_heights.set(i, MIN_BAR_HEIGHT);
            } else {
                let mut end = (i + 1) * seg;
                if end > num_samples {
                    end = num_samples;
                }
                let h = signal_envelope(data, start, end);
                self.target_heights.set(i, h);
            }
            i = i + 1;
        }
    }
}

} // verus!
