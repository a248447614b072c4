//! Synthetic capture source: a deterministic multi-harmonic signal for when
//! no audio device or monitor source is available. The UI always gets
//! plausible-looking data.

use vstd::prelude::*;

use crate::smoothing::AudioData;
use crate::transform::{
    is_pow2, spectrum_bin_is, tdiv, TransformPlan, MAX_TRANSFORM_SIZE, SAMPLE_LIMIT,
};
use crate::trig::{lemma_sin_turn_bounds, sin_turn, sin_turn_spec, FULL_TURN, TRIG_SCALE};

verus! {

/// Phase advance per generated frame, in angle units.
pub const PHASE_STEP: i64 = 1024;

/// Amplitude of the fundamental, half of full scale.
pub const AMP_1: i64 = 16384;

/// Amplitude of the second harmonic, a quarter of full scale.
pub const AMP_2: i64 = 8192;

/// Amplitude of the third harmonic, about 0.15 of full scale.
pub const AMP_3: i64 = 4915;

/// Whole cycles of the fundamental across one window.
pub const CYCLES_1: i64 = 2;

/// Whole cycles of the second harmonic across one window.
pub const CYCLES_2: i64 = 5;

/// Whole cycles of the third harmonic across one window.
pub const CYCLES_3: i64 = 1;

/// Angle of harmonic `c` at sample `i` of `n`, phase-shifted by `p` times the
/// frame phase: `(m * phase + i * c / n) mod 1` turns, on the window's grid.
pub open spec fn harmonic_angle(phase: int, m: int, i: int, c: int, n: int) -> int {
    (m * phase + ((i * c) % n) * ((FULL_TURN as int) / n)) % (FULL_TURN as int)
}

/// One sample of the synthetic signal: three superposed sine waves at
/// different frequencies, phases and amplitudes.
pub open spec fn synth_sample(phase: int, i: int, n: int) -> int {
    tdiv(
        AMP_1 * sin_turn_spec(harmonic_angle(phase, 1, i, CYCLES_1 as int, n)) + AMP_2
            * sin_turn_spec(harmonic_angle(phase, 2, i, CYCLES_2 as int, n)) + AMP_3
            * sin_turn_spec(harmonic_angle(phase, 3, i, CYCLES_3 as int, n)),
        TRIG_SCALE as int,
    )
}

/// The synthetic signal never leaves the sample range the transform accepts.
pub proof fn lemma_synth_sample_bounded(phase: int, i: int, n: int)
    ensures
        -SAMPLE_LIMIT <= synth_sample(phase, i, n) <= SAMPLE_LIMIT,
{
    let u1 = harmonic_angle(phase, 1, i, CYCLES_1 as int, n);
    let u2 = harmonic_angle(phase, 2, i, CYCLES_2 as int, n);
    let u3 = harmonic_angle(phase, 3, i, CYCLES_3 as int, n);
    lemma_harmonic_angle_in_range(phase, 1, i, CYCLES_1 as int, n);
    lemma_harmonic_angle_in_range(phase, 2, i, CYCLES_2 as int, n);
    lemma_harmonic_angle_in_range(phase, 3, i, CYCLES_3 as int, n);
    lemma_sin_turn_bounds(u1);
    lemma_sin_turn_bounds(u2);
    lemma_sin_turn_bounds(u3);
    let s1 = sin_turn_spec(u1);
    let s2 = sin_turn_spec(u2);
    let s3 = sin_turn_spec(u3);
    let sum = AMP_1 * s1 + AMP_2 * s2 + AMP_3 * s3;
    assert(-(AMP_1 + AMP_2 + AMP_3) * (TRIG_SCALE as int) <= sum <= (AMP_1 + AMP_2 + AMP_3) * (
    TRIG_SCALE as int)) by (nonlinear_arith)
        requires
            -TRIG_SCALE <= s1 <= TRIG_SCALE,
            -TRIG_SCALE <= s2 <= TRIG_SCALE,
            -TRIG_SCALE <= s3 <= TRIG_SCALE,
            sum == AMP_1 * s1 + AMP_2 * s2 + AMP_3 * s3,
    ;
    if sum >= 0 {
        assert(sum / (TRIG_SCALE as int) <= SAMPLE_LIMIT) by (nonlinear_arith)
            requires
                0 <= sum <= (AMP_1 + AMP_2 + AMP_3) * (TRIG_SCALE as int),
        ;
        assert(0 <= sum / (TRIG_SCALE as int)) by (nonlinear_arith)
            requires
                0 <= sum,
        ;
    } else {
        assert((-sum) / (TRIG_SCALE as int) <= SAMPLE_LIMIT) by (nonlinear_arith)
            requires
                0 <= -sum <= (AMP_1 + AMP_2 + AMP_3) * (TRIG_SCALE as int),
        ;
        assert(0 <= (-sum) / (TRIG_SCALE as int)) by (nonlinear_arith)
            requires
                0 <= -sum,
        ;
    }
}

/// A harmonic angle always lands inside one turn.
proof fn lemma_harmonic_angle_in_range(phase: int, m: int, i: int, c: int, n: int)
    ensures
        0 <= harmonic_angle(phase, m, i, c, n) < FULL_TURN as int,
{
    let x = m * phase + ((i * c) % n) * ((FULL_TURN as int) / n);
    vstd::arithmetic::div_mod::lemma_mod_bound(x, FULL_TURN as int);
}

/// Deterministic synthetic capture: the guaranteed fallback source.
pub struct MockAudioCapture {
    phase: i64,
    fft_size: usize,
    plan: TransformPlan,
}

impl MockAudioCapture {
    /// Internal invariant: the phase stays inside one turn and the plan
    /// matches the configured transform size.
    pub closed spec fn wf(&self) -> bool {
        &&& 0 <= self.phase < FULL_TURN
        &&& 8 <= self.fft_size <= MAX_TRANSFORM_SIZE
        &&& is_pow2(self.fft_size as nat)
        &&& self.plan.wf()
        &&& self.plan.spec_n() == self.fft_size
    }

    /// The current phase, in angle units.
    pub closed spec fn spec_phase(&self) -> i64 {
        self.phase
    }

    /// The configured transform size.
    pub closed spec fn spec_fft_size(&self) -> usize {
        self.fft_size
    }

    /// A fresh generator for the given transform size.
    pub fn new(fft_size: usize) -> (r: Self)
        requires
            8 <= fft_size <= MAX_TRANSFORM_SIZE,
            is_pow2(fft_size as nat),
        ensures
            r.wf(),
            r.spec_phase() == 0i64,
            r.spec_fft_size() == fft_size,
    {
        Self { phase: 0, fft_size, plan: TransformPlan::new(fft_size) }
    }

    /// Advances the phase by one frame and returns the synthetic waveform
    /// together with its magnitude spectrum.
    pub fn get_data(&mut self) -> (out: AudioData)
        requires
            old(self).wf(),
        ensures
            final(self).wf(),
            final(self).spec_fft_size() == old(self).spec_fft_size(),
            final(self).spec_phase() == (old(self).spec_phase() + PHASE_STEP) % (FULL_TURN as int),
            out.waveform@.len() == old(self).spec_fft_size(),
            forall|i: int|
                0 <= i < out.waveform@.len() ==> #[trigger] out.waveform@[i] as int == synth_sample(
                    final(self).spec_phase() as int,
                    i,
                    old(self).spec_fft_size() as int,
                ),
            out.spectrum@.len() == old(self).spec_fft_size() / 2,
            forall|k: int|
                0 <= k < out.spectrum@.len() ==> spectrum_bin_is(
                    out.waveform@,
                    k,
                    old(self).spec_fft_size() as int,
                    #[trigger] out.spectrum@[k] as int,
                ),
            out.wf(),
    {
        let n = self.fft_size;
        let advanced = self.phase + PHASE_STEP;
        self.phase = if advanced >= FULL_TURN {
            advanced - FULL_TURN
        } else {
            advanced
        };
        let phase = self.phase;
        let mut waveform: Vec<i64> = Vec::new();
        let mut i: usize = 0;
        while i < n
            invariant
                i <= n,
                8 <= n <= MAX_TRANSFORM_SIZE,
                0 <= phase < FULL_TURN,
                waveform@.len() == i,
                forall|j: int|
                    0 <= j < i ==> #[trigger] waveform@[j] as int == synth_sample(
                        phase as int,
                        j,
                        n as int,
                    ),
                forall|j: int|
                    0 <= j < i ==> -SAMPLE_LIMIT <= #[trigger] waveform@[j] <= SAMPLE_LIMIT,
            decreases n - i,
        {
            let s = synth_sample_at(phase, i, n);
            waveform.push(s);
            i = i + 1;
        }
        let spectrum = self.plan.transform(&waveform);
        AudioData { spectrum, waveform }
    }
}

/// Computes one synthetic sample.
fn synth_sample_at(phase: i64, i: usize, n: usize) -> (r: i64)
    requires
        0 <= phase < FULL_TURN,
        8 <= n <= MAX_TRANSFORM_SIZE,
        i < n,
    ensures
        r as int == synth_sample(phase as int, i as int, n as int),
        -SAMPLE_LIMIT <= r <= SAMPLE_LIMIT,
{
    proof {
        lemma_synth_sample_bounded(phase as int, i as int, n as int);
    }
    let s1 = sin_turn(harmonic_angle_at(phase, 1, i, CYCLES_1, n));
    let s2 = sin_turn(harmonic_angle_at(phase, 2, i, CYCLES_2, n));
    let s3 = sin_turn(harmonic_angle_at(phase, 3, i, CYCLES_3, n));
    proof {
        assert(-(AMP_1 * (TRIG_SCALE as int)) <= AMP_1 * (s1 as int) <= AMP_1 * (TRIG_SCALE as int)
            && -(AMP_2 * (TRIG_SCALE as int)) <= AMP_2 * (s2 as int) <= AMP_2 * (
        TRIG_SCALE as int) && -(AMP_3 * (TRIG_SCALE as int)) <= AMP_3 * (s3 as int) <= AMP_3 * (
        TRIG_SCALE as int)) by (nonlinear_arith)
            requires
                -TRIG_SCALE <= s1 as int <= TRIG_SCALE,
                -TRIG_SCALE <= s2 as int <= TRIG_SCALE,
                -TRIG_SCALE <= s3 as int <= TRIG_SCALE,
        ;
    }
    let sum: i64 = AMP_1 * s1 + AMP_2 * s2 + AMP_3 * s3;
    if sum >= 0 {
        ((sum as u64) / (TRIG_SCALE as u64)) as i64
    } else {
        -((((-sum) as u64) / (TRIG_SCALE as u64)) as i64)
    }
}

/// Computes one harmonic angle on the window's grid.
fn harmonic_angle_at(phase: i64, m: i64, i: usize, c: i64, n: usize) -> (r: i64)
    requires
        0 <= phase < FULL_TURN,
        1 <= m <= 3,
        1 <= c <= 8,
        8 <= n <= MAX_TRANSFORM_SIZE,
        i < n,
    ensures
        r as int == harmonic_angle(phase as int, m as int, i as int, c as int, n as int),
        0 <= r < FULL_TURN,
{
    let step: usize = (FULL_TURN as usize) / n;
    proof {
        crate::transform::lemma_angle_step_bounds(n as int);
        assert(i * (c as usize) <= 8192 * 8) by (nonlinear_arith)
            requires
                0 <= i as int <= 8192,
                1 <= c as int <= 8,
        ;
        let g = ((i as int) * (c as int)) % (n as int);
        vstd::arithmetic::div_mod::lemma_mod_bound((i as int) * (c as int), n as int);
        assert(g * ((FULL_TURN as int) / (n as int)) < FULL_TURN as int) by (nonlinear_arith)
            requires
                0 <= g < (n as int),
                (n as int) * ((FULL_TURN as int) / (n as int)) <= FULL_TURN as int,
                1 <= (FULL_TURN as int) / (n as int),
        ;
        assert(0 <= g * ((FULL_TURN as int) / (n as int))) by (nonlinear_arith)
            requires
                0 <= g,
                1 <= (FULL_TURN as int) / (n as int),
        ;
    }
    let grid: usize = ((i * (c as usize)) % n) * step;
    proof {
        assert((m as int) * (phase as int) <= 3 * (FULL_TURN as int)) by (nonlinear_arith)
            requires
                0 <= (phase as int) < (FULL_TURN as int),
                1 <= m as int <= 3,
        ;
        assert(0 <= (m as int) * (phase as int)) by (nonlinear_arith)
            requires
                0 <= phase as int,
                1 <= m as int,
        ;
    }
    let x: u64 = (m as u64) * (phase as u64) + (grid as u64);
    proof {
        vstd::arithmetic::div_mod::lemma_mod_bound(x as int, FULL_TURN as int);
    }
    ((x % (FULL_TURN as u64)) as i64)
}

} // verus!
