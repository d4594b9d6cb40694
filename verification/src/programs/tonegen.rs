//! A tone for the sound card.
use vstd::prelude::*;

verus! {

pub const SAMPLE_RATE: u32 = 22050;
pub const TONE_HZ: u32 = 440;
pub const DURATION_SECS: u32 = 3;
pub const TOTAL_SAMPLES: u32 = 66150;
/// Samples are written so many at a time.
pub const CHUNK_SAMPLES: usize = 512;
/// The samples of one wave.
pub const PERIOD: u32 = 50;

/// A parabola that is zero at both ends of a quarter wave.
pub open spec fn hump(f: int) -> int {
    (f * (16384 - f)) / 8192
}

/// The wave at a point of 65536: two humps above zero, then two below, four times as
/// high and cut off at the limits of a sample.
pub open spec fn wave(p: int) -> int {
    let f = p % 16384;
    let half = if p / 16384 == 0 {
        hump(f)
    } else if p / 16384 == 1 {
        hump(16384 - f)
    } else if p / 16384 == 2 {
        -hump(f)
    } else {
        -hump(16384 - f)
    };
    let x = half * 4;
    if x < -32767 {
        -32767
    } else if x > 32767 {
        32767
    } else {
        x
    }
}

proof fn lemma_hump(f: int)
    requires
        0 <= f <= 16384,
    ensures
        0 <= f * (16384 - f) <= 67108864,
        0 <= hump(f) <= 8192,
{
    assert(0 <= f * (16384 - f)) by (nonlinear_arith)
        requires
            0 <= f <= 16384,
    ;
    assert(f * (16384 - f) <= 67108864) by (nonlinear_arith)
        requires
            0 <= f <= 16384,
    {
        assert((f - 8192) * (f - 8192) >= 0);
    }
}

/// A sample of the wave, at a point of a period.
pub fn sine_i16(phase: u32, period: u32) -> (r: i16)
    requires
        period > 0,
        phase < period,
    ensures
        r == wave((phase * 65536) as int / period as int),
        -32767 <= r <= 32767,
{
    let ghost ratio = (phase * 65536) as int / period as int;
    proof {
        assert(ratio < 65536) by (nonlinear_arith)
            requires
                ratio == (phase * 65536) as int / period as int,
                0 <= phase < period,
        ;
        assert(ratio >= 0) by (nonlinear_arith)
            requires
                ratio == (phase * 65536) as int / period as int,
                0 <= phase,
                period > 0,
        ;
    }
    let p: u32 = ((phase as u64 * 65536) / period as u64) as u32;
    let quadrant: u32 = p / 16384;
    let frac: i32 = (p % 16384) as i32;
    proof {
        lemma_hump(frac as int);
        lemma_hump(16384 - frac);
    }
    let half: i32 = if quadrant == 0 {
        (frac * (16384 - frac)) / 8192
    } else if quadrant == 1 {
        let f: i32 = 16384 - frac;
        (f * (16384 - f)) / 8192
    } else if quadrant == 2 {
        0 - (frac * (16384 - frac)) / 8192
    } else {
        let f: i32 = 16384 - frac;
        0 - (f * (16384 - f)) / 8192
    };
    let x: i32 = half * 4;
    if x < -32767 {
        -32767
    } else if x > 32767 {
        32767
    } else {
        x as i16
    }
}

/// The second half of the wave is the first turned over, and every value is one that can
/// be turned over.
pub proof fn wave_is_odd(p: int)
    requires
        0 <= p < 32768,
    ensures
        wave(p + 32768) == -wave(p),
        -32767 <= wave(p) <= 32767,
        -32767 <= wave(p + 32768) <= 32767,
        wave(0) == 0,
{
    let f = p % 16384;
    lemma_hump(f);
    lemma_hump(16384 - f);
    assert((p + 32768) % 16384 == f);
}

/// The samples of the tone from one on: one write's worth, or what is left.
pub fn tone_chunk(samples_written: u32) -> (r: Vec<i16>)
    requires
        samples_written < TOTAL_SAMPLES,
    ensures
        r@.len() == (if TOTAL_SAMPLES - samples_written < CHUNK_SAMPLES {
            TOTAL_SAMPLES - samples_written
        } else {
            CHUNK_SAMPLES as int
        }),
        forall|i: int|
            0 <= i < r@.len() ==> #[trigger] r@[i] == wave(
                ((samples_written + i) % (PERIOD as int)) * 65536 / (PERIOD as int),
            ),
{
    let remaining: usize = (TOTAL_SAMPLES - samples_written) as usize;
    let chunk: usize = if remaining < CHUNK_SAMPLES { remaining } else { CHUNK_SAMPLES };
    let mut out: Vec<i16> = Vec::new();
    let mut i: usize = 0;
    while i < chunk
        invariant
            i <= chunk <= CHUNK_SAMPLES,
            samples_written < TOTAL_SAMPLES,
            out@.len() == i,
            forall|k: int|
                0 <= k < i ==> #[trigger] out@[k] == wave(
                    ((samples_written + k) % (PERIOD as int)) * 65536 / (PERIOD as int),
                ),
        decreases chunk - i,
    {
        let phase: u32 = (samples_written + i as u32) % PERIOD;
        out.push(sine_i16(phase, PERIOD));
        i += 1;
    }
    out
}

} // verus!
