//! Amplitude envelope of one audio segment: root-mean-square of the samples,
//! normalized against a full-scale amplitude, compressed with a square root
//! to keep quiet audio visible, and rescaled into the displayable range.

use vstd::prelude::*;

use crate::math::isqrt64;
use crate::math::isqrt_spec;
use crate::math::lemma_div_le;
use crate::math::lemma_isqrt_bounds;
use crate::math::lemma_mul_div_exact;
use crate::state::in_display_range;
use crate::MAX_BAR_HEIGHT;
use crate::MILLI;
use crate::MIN_BAR_HEIGHT;
use crate::RMS_FULL_SCALE;

verus! {

/// The `j`-th interleaved little-endian signed 16-bit sample of `bytes`.
pub open spec fn sample_at(bytes: Seq<u8>, j: int) -> int
    recommends
        0 <= j,
        2 * j + 1 < bytes.len(),
{
    let u = bytes[2 * j] + 256 * bytes[2 * j + 1];
    if u < 32768 {
        u
    } else {
        u - 65536
    }
}

/// Sum of the squares of samples `start..end`.
pub open spec fn sum_squares(bytes: Seq<u8>, start: int, end: int) -> int
    decreases end - start,
{
    if start >= end {
        0
    } else {
        sum_squares(bytes, start, end - 1) + sample_at(bytes, end - 1) * sample_at(bytes, end - 1)
    }
}

/// Envelope of samples `start..end`, in milli-units: the root-mean-square,
/// divided by the full-scale amplitude of 3000 and capped at one (both in
/// parts per million here), square-root-compressed back to milli, and mapped
/// linearly onto `[MIN_BAR_HEIGHT, MAX_BAR_HEIGHT]`. An empty segment is
/// silent by definition and sits at the floor.
pub open spec fn envelope_spec(bytes: Seq<u8>, start: int, end: int) -> int {
    if end <= start {
        MIN_BAR_HEIGHT as int
    } else {
        let mean = sum_squares(bytes, start, end) / (end - start);
        let rms = isqrt_spec(mean as nat);
        let scaled: int = if rms >= 3000 { 1000000 } else { (rms * 1000 / 3) as int };
        let compressed = isqrt_spec(scaled as nat);
        MIN_BAR_HEIGHT + compressed * ((MAX_BAR_HEIGHT - MIN_BAR_HEIGHT) as int) / (MILLI as int)
    }
}

/// Every sample fits in a signed 16-bit range.
pub proof fn lemma_sample_bounds(bytes: Seq<u8>, j: int)
    requires
        0 <= j,
        2 * j + 1 < bytes.len(),
    ensures
        -32768 <= sample_at(bytes, j) <= 32767,
{
}

/// A sum of squares is nonnegative and at most `2^30` per sample.
pub proof fn lemma_sum_squares_bounds(bytes: Seq<u8>, start: int, end: int)
    requires
        0 <= start,
        2 * end <= bytes.len(),
    ensures
        0 <= sum_squares(bytes, start, end),
        sum_squares(bytes, start, end) <= (if end - start >= 0 { end - start } else { 0 })
            * 1073741824,
    decreases end - start,
{
    if start < end {
        lemma_sum_squares_bounds(bytes, start, end - 1);
        lemma_sample_bounds(bytes, end - 1);
        let s = sample_at(bytes, end - 1);
        assert(0 <= s * s <= 1073741824) by (nonlinear_arith)
            requires -32768 <= s <= 32767;
    }
}

/// The envelope always lands in the displayable range; an empty segment
/// lands exactly on the floor.
pub proof fn lemma_envelope_range(bytes: Seq<u8>, start: int, end: int)
    requires
        0 <= start,
        2 * end <= bytes.len(),
    ensures
        in_display_range(envelope_spec(bytes, start, end)),
        end <= start ==> envelope_spec(bytes, start, end) == MIN_BAR_HEIGHT,
{
    if end > start {
        let count = end - start;
        let sum = sum_squares(bytes, start, end);
        lemma_sum_squares_bounds(bytes, start, end);
        let mean = sum / count;
        assert(mean >= 0) by (nonlinear_arith)
            requires sum >= 0, count >= 1, mean == sum / count;
        let rms = isqrt_spec(mean as nat);
        let scaled: int = if rms >= 3000 { 1000000 } else { (rms * 1000 / 3) as int };
        assert(0 <= scaled <= 1000000) by {
            if rms < 3000 {
                lemma_div_le((rms * 1000) as int, 2999000, 3);
            }
        }
        let compressed = isqrt_spec(scaled as nat);
        lemma_isqrt_bounds(scaled as nat);
        assert(compressed <= 1000) by (nonlinear_arith)
            requires compressed * compressed <= scaled, scaled <= 1000000, compressed >= 0;
        let span = (MAX_BAR_HEIGHT - MIN_BAR_HEIGHT) as int;
        assert(0 <= compressed * span <= 17000000) by (nonlinear_arith)
            requires 0 <= compressed <= 1000, span == 17000;
        lemma_div_le(compressed * span, 17000000, 1000);
        vstd::arithmetic::div_mod::lemma_div_pos_is_pos(compressed * span, 1000);
        lemma_mul_div_exact(17000, 1000);
    }
}

/// A segment of all-zero samples (or an empty one) sits exactly on the floor.
pub proof fn lemma_envelope_silent(bytes: Seq<u8>, start: int, end: int)
    requires
        0 <= start,
        2 * end <= bytes.len(),
        forall|j: int| start <= j < end ==> #[trigger] sample_at(bytes, j) == 0,
    ensures
        envelope_spec(bytes, start, end) == MIN_BAR_HEIGHT,
{
    if start < end {
        lemma_sum_squares_silent(bytes, start, end);
        let count = end - start;
        assert(0int / count == 0) by {
            vstd::arithmetic::div_mod::lemma_div_of0(count);
        }
        assert(isqrt_spec(0) == 0);
        assert(0int * 1000 / 3 == 0) by {
            vstd::arithmetic::div_mod::lemma_div_of0(3);
        }
        let span = (MAX_BAR_HEIGHT - MIN_BAR_HEIGHT) as int;
        assert(isqrt_spec(0) * span == 0) by (nonlinear_arith)
            requires isqrt_spec(0) == 0;
        assert(0int / 1000 == 0) by {
            vstd::arithmetic::div_mod::lemma_div_of0(1000);
        }
    }
}

/// The sum of squares of all-zero samples is zero.
pub proof fn lemma_sum_squares_silent(bytes: Seq<u8>, start: int, end: int)
    requires
        forall|j: int| start <= j < end ==> #[trigger] sample_at(bytes, j) == 0,
    ensures
        sum_squares(bytes, start, end) == 0,
    decreases end - start,
{
    if start < end {
        lemma_sum_squares_silent(bytes, start, end - 1);
    }
}

/// Decodes the `j`-th little-endian signed 16-bit sample.
fn sample_i32(data: &Vec<u8>, j: usize) -> (s: i32)
    requires
        2 * j + 1 < data@.len(),
        data@.len() <= 3200,
    ensures
        s as int == sample_at(data@, j as int),
        -32768 <= s <= 32767,
{
    let lo = data[2 * j] as u32;
    let hi = data[2 * j + 1] as u32;
    let u = lo + hi * 256;
    if u < 32768 {
        u as i32
    } else {
        (u as i32) - 65536
    }
}

/// Envelope of the samples `start..end` of `data`, in milli-units.
pub fn signal_envelope(data: &Vec<u8>, start: usize, end: usize) -> (h: i32)
    requires
        2 * end <= data@.len(),
        data@.len() <= 3200,
    ensures
        h as int == envelope_spec(data@, start as int, end as int),
        in_display_range(h as int),
{
    proof {
        lemma_envelope_range(data@, start as int, end as int);
    }
    if end <= start {
        return MIN_BAR_HEIGHT;
    }
    let mut sum: u64 = 0;
    let mut j: usize = start;
    while j < end
        invariant
            start <= j <= end,
            2 * end <= data@.len(),
            data@.len() <= 3200,
            sum as int == sum_squares(data@, start as int, j as int),
            sum <= (j - start) * 1073741824,
        decreases end - j,
    {
        let s = sample_i32(data, j);
        proof {
            assert(0 <= (s as int) * (s as int) <= 1073741824) by (nonlinear_arith)
                requires -32768 <= s as int <= 32767;
        }
        let sq = (s as i64) * (s as i64);
        sum = sum + (sq as u64);
        j = j + 1;
    }
    let count = (end - start) as u64;
    let mean = sum / count;
    proof {
        assert(mean <= 1073741824) by (nonlinear_arith)
            requires
                sum <= (end - start) * 1073741824,
                count == end - start,
                count >= 1,
                mean == sum as int / count as int;
    }
    let rms = isqrt64(mean);
    proof {
        assert(rms <= 32768) by (nonlinear_arith)
            requires (rms as int) * (rms as int) <= 1073741824, rms >= 0;
    }
    let scaled: u64 = if rms >= RMS_FULL_SCALE {
        1000000
    } else {
        rms * 1000 / 3
    };
    proof {
        if rms < 3000 {
            lemma_div_le(rms as int * 1000, 2999000, 3);
            lemma_div_le(0, rms as int * 1000, 3);
        }
    }
    let compressed = isqrt64(scaled);
    proof {
        assert(compressed <= 1000) by (nonlinear_arith)
            requires
                (compressed as int) * (compressed as int) <= scaled as int,
                scaled <= 1000000,
                compressed >= 0;
    }
    MIN_BAR_HEIGHT + ((compressed as i32) * (MAX_BAR_HEIGHT - MIN_BAR_HEIGHT)) / MILLI
}

} // verus!
