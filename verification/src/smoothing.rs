//! Asymmetric exponential smoothing (attack/decay) for spectrum and waveform
//! frames, in fixed-point arithmetic.
//!
//! Blend coefficients are expressed in thousandths: `1000` stands for a blend
//! factor of one (the new value replaces the old one in a single step).
//! Rounding is always toward the target, so repeated blending toward a fixed
//! target converges to it exactly and never overshoots.

use vstd::prelude::*;

verus! {

/// Denominator of all blend coefficients: a coefficient `c` stands for the
/// real factor `c / 1000`.
pub const BLEND_SCALE: i64 = 1000;

/// Largest magnitude a sample or spectrum value may carry. Keeps every
/// intermediate product of the smoothing arithmetic inside `i64`.
pub const VALUE_LIMIT: i64 = 0x100_0000_0000;

/// Symmetric blend coefficient used for the waveform channel (70% new value,
/// 30% old value): the waveform must track the raw signal closely.
pub const WAVEFORM_BLEND: i64 = 700;

/// One smoothing step from `current` toward `target` with blend coefficient
/// `coef` (in thousandths), rounding toward the target.
pub open spec fn blend_step(current: int, target: int, coef: int) -> int {
    if target >= current {
        current + ((target - current) * coef + (BLEND_SCALE - 1)) / (BLEND_SCALE as int)
    } else {
        current - ((current - target) * coef + (BLEND_SCALE - 1)) / (BLEND_SCALE as int)
    }
}

/// The attack/decay rule for one spectrum bin: rising values use the attack
/// coefficient, falling values the decay coefficient.
pub open spec fn smooth_step(current: int, target: int, attack: int, decay: int) -> int {
    if target > current {
        blend_step(current, target, attack)
    } else {
        blend_step(current, target, decay)
    }
}

/// Moves `current` one blend step toward `target`.
pub fn blend_toward(current: i64, target: i64, coef: i64) -> (r: i64)
    requires
        1 <= coef <= BLEND_SCALE,
        -VALUE_LIMIT <= current <= VALUE_LIMIT,
        -VALUE_LIMIT <= target <= VALUE_LIMIT,
    ensures
        r == blend_step(current as int, target as int, coef as int),
        current <= target ==> current <= r <= target,
        target <= current ==> target <= r <= current,
{
    proof {
        lemma_blend_step_bounds(current as int, target as int, coef as int);
    }
    if target >= current {
        let delta: i64 = target - current;
        current + (delta * coef + (BLEND_SCALE - 1)) / BLEND_SCALE
    } else {
        let delta: i64 = current - target;
        current - (delta * coef + (BLEND_SCALE - 1)) / BLEND_SCALE
    }
}

/// One blend step lands between `current` and `target`, and makes strict
/// progress whenever the two differ.
pub proof fn lemma_blend_step_bounds(current: int, target: int, coef: int)
    requires
        1 <= coef <= BLEND_SCALE,
    ensures
        current <= target ==> current <= blend_step(current, target, coef) <= target,
        target <= current ==> target <= blend_step(current, target, coef) <= current,
        current < target ==> current < blend_step(current, target, coef),
        target < current ==> blend_step(current, target, coef) < current,
{
    if target >= current {
        let d = target - current;
        lemma_ceil_div_bounds(d, coef);
    }
    if target < current {
        let d = current - target;
        lemma_ceil_div_bounds(d, coef);
    }
}

/// Bounds of the rounded-up scaled step `(d * coef + 999) / 1000` for a
/// non-negative distance `d`.
proof fn lemma_ceil_div_bounds(d: int, coef: int)
    requires
        0 <= d,
        1 <= coef <= BLEND_SCALE,
    ensures
        0 <= (d * coef + (BLEND_SCALE - 1)) / (BLEND_SCALE as int) <= d,
        1 <= d ==> 1 <= (d * coef + (BLEND_SCALE - 1)) / (BLEND_SCALE as int),
{
    let s = BLEND_SCALE as int;
    assert(0 <= d * coef <= d * s) by (nonlinear_arith)
        requires
            0 <= d,
            1 <= coef <= s,
    ;
    assert((d * coef + (s - 1)) / s <= d) by (nonlinear_arith)
        requires
            0 <= d * coef <= d * s,
            s == 1000,
    ;
    assert(0 <= (d * coef + (s - 1)) / s) by (nonlinear_arith)
        requires
            0 <= d * coef,
            s == 1000,
    ;
    if 1 <= d {
        assert(d * coef >= 1) by (nonlinear_arith)
            requires
                1 <= d,
                1 <= coef,
        ;
        assert((d * coef + (s - 1)) / s >= 1) by (nonlinear_arith)
            requires
                d * coef >= 1,
                s == 1000,
        ;
    }
}

/// Repeated blending toward a fixed target shrinks the remaining distance
/// geometrically: one step multiplies it by at most `(1000 - coef) / 1000`.
pub proof fn lemma_blend_converges(current: int, target: int, coef: int)
    requires
        1 <= coef <= BLEND_SCALE,
        current <= target,
    ensures
        current <= blend_step(current, target, coef) <= target,
        current < target ==> current < blend_step(current, target, coef),
        (target - blend_step(current, target, coef)) * (BLEND_SCALE as int) <= (target - current)
            * (BLEND_SCALE - coef),
{
    let s = BLEND_SCALE as int;
    let d = target - current;
    lemma_blend_step_bounds(current, target, coef);
    let q = (d * coef + (s - 1)) / s;
    assert(q * s >= d * coef) by (nonlinear_arith)
        requires
            0 <= d * coef,
            s == 1000,
            q == (d * coef + (s - 1)) / s,
    ;
    assert((d - q) * s == d * s - q * s) by (nonlinear_arith);
    assert(d * s - d * coef == d * (s - coef)) by (nonlinear_arith);
}

/// The displayed value after `n` frames of the same target.
pub open spec fn blend_iter(current: int, target: int, coef: int, n: nat) -> int
    decreases n,
{
    if n == 0 {
        current
    } else {
        blend_step(blend_iter(current, target, coef, (n - 1) as nat), target, coef)
    }
}

/// Feeding the same target repeatedly drives the displayed value up
/// monotonically, never past the target, and the remaining distance shrinks
/// at least geometrically: after `n` frames it is bounded by
/// `(target - current) * ((1000 - coef) / 1000)^n`.
pub proof fn lemma_blend_iter_converges(current: int, target: int, coef: int, n: nat)
    requires
        1 <= coef <= BLEND_SCALE,
        current <= target,
    ensures
        current <= blend_iter(current, target, coef, n) <= target,
        n > 0 ==> blend_iter(current, target, coef, (n - 1) as nat) <= blend_iter(
            current,
            target,
            coef,
            n,
        ),
        (target - blend_iter(current, target, coef, n)) * vstd::arithmetic::power::pow(
            BLEND_SCALE as int,
            n,
        ) <= (target - current) * vstd::arithmetic::power::pow(BLEND_SCALE - coef, n),
    decreases n,
{
    let s = BLEND_SCALE as int;
    if n == 0 {
        vstd::arithmetic::power::lemma_pow0(s);
        vstd::arithmetic::power::lemma_pow0(s - coef);
    } else {
        let m = (n - 1) as nat;
        lemma_blend_iter_converges(current, target, coef, m);
        let prev = blend_iter(current, target, coef, m);
        let cur = blend_iter(current, target, coef, n);
        lemma_blend_converges(prev, target, coef);
        let dp = target - prev;
        let dc = target - cur;
        let d0 = target - current;
        let ps = vstd::arithmetic::power::pow(s, m);
        let pc = vstd::arithmetic::power::pow(s - coef, m);
        assert(dc * s <= dp * (s - coef));
        vstd::arithmetic::power::lemma_pow1(s);
        vstd::arithmetic::power::lemma_pow_adds(s, m, 1);
        vstd::arithmetic::power::lemma_pow1(s - coef);
        vstd::arithmetic::power::lemma_pow_adds(s - coef, m, 1);
        assert(vstd::arithmetic::power::pow(s, n) == ps * s);
        assert(vstd::arithmetic::power::pow(s - coef, n) == pc * (s - coef));
        vstd::arithmetic::power::lemma_pow_positive(s, m);
        lemma_pow_nonneg(s - coef, m);
        assert(dc * (ps * s) == (dc * s) * ps) by (nonlinear_arith);
        assert((dc * s) * ps <= (dp * (s - coef)) * ps) by (nonlinear_arith)
            requires
                0 < ps,
                dc * s <= dp * (s - coef),
        ;
        assert((dp * (s - coef)) * ps == (dp * ps) * (s - coef)) by (nonlinear_arith);
        assert((dp * ps) * (s - coef) <= (d0 * pc) * (s - coef)) by (nonlinear_arith)
            requires
                dp * ps <= d0 * pc,
                0 <= s - coef,
        ;
        assert((d0 * pc) * (s - coef) == d0 * (pc * (s - coef))) by (nonlinear_arith);
        assert(dc * (ps * s) == dc * vstd::arithmetic::power::pow(s, n));
        assert(d0 * (pc * (s - coef)) == d0 * vstd::arithmetic::power::pow(s - coef, n));
    }
}

/// Powers of a non-negative base are non-negative.
proof fn lemma_pow_nonneg(b: int, m: nat)
    requires
        0 <= b,
    ensures
        0 <= vstd::arithmetic::power::pow(b, m),
    decreases m,
{
    reveal(vstd::arithmetic::power::pow);
    if m > 0 {
        lemma_pow_nonneg(b, (m - 1) as nat);
        assert(0 <= b * vstd::arithmetic::power::pow(b, (m - 1) as nat)) by (nonlinear_arith)
            requires
                0 <= b,
                0 <= vstd::arithmetic::power::pow(b, (m - 1) as nat),
        ;
    }
}

/// A raw per-tick frame: one magnitude per positive frequency bin, and the
/// time-domain samples behind it. All values are fixed-point integers.
pub struct AudioData {
    pub spectrum: Vec<i64>,
    pub waveform: Vec<i64>,
}

/// Every value of the sequence fits the smoothing arithmetic.
pub open spec fn all_within_limit(s: Seq<i64>) -> bool {
    forall|i: int| 0 <= i < s.len() ==> -VALUE_LIMIT <= #[trigger] s[i] <= VALUE_LIMIT
}

impl AudioData {
    /// Both channels hold only values the smoothing arithmetic accepts.
    pub open spec fn wf(&self) -> bool {
        all_within_limit(self.spectrum@) && all_within_limit(self.waveform@)
    }
}

/// Smoothed audio state: the currently displayed spectrum and waveform, blended
/// toward each new frame with asymmetric attack/decay coefficients.
pub struct SmoothedAudio {
    spectrum: Vec<i64>,
    waveform: Vec<i64>,
    attack: i64,
    decay: i64,
}

impl SmoothedAudio {
    /// Internal invariant: coefficients are valid thousandths in (0, 1], and
    /// all displayed values stay inside the arithmetic's limits.
    pub closed spec fn wf(&self) -> bool {
        &&& 1 <= self.attack <= BLEND_SCALE
        &&& 1 <= self.decay <= BLEND_SCALE
        &&& all_within_limit(self.spectrum@)
        &&& all_within_limit(self.waveform@)
    }

    pub closed spec fn spec_spectrum(&self) -> Seq<i64> {
        self.spectrum@
    }

    pub closed spec fn spec_waveform(&self) -> Seq<i64> {
        self.waveform@
    }

    pub closed spec fn spec_attack(&self) -> i64 {
        self.attack
    }

    pub closed spec fn spec_decay(&self) -> i64 {
        self.decay
    }

    /// Fresh state for a transform of `fft_size` samples: `fft_size / 2`
    /// spectrum bins and `fft_size` waveform samples, all starting at zero.
    /// `attack` and `decay` are thousandths in (0, 1].
    pub fn new(fft_size: usize, attack: i64, decay: i64) -> (r: Self)
        requires
            1 <= attack <= BLEND_SCALE,
            1 <= decay <= BLEND_SCALE,
        ensures
            r.wf(),
            r.spec_attack() == attack,
            r.spec_decay() == decay,
            r.spec_spectrum().len() == fft_size / 2,
            r.spec_waveform().len() == fft_size,
            forall|i: int| 0 <= i < fft_size / 2 ==> r.spec_spectrum()[i] == 0i64,
            forall|i: int| 0 <= i < fft_size ==> r.spec_waveform()[i] == 0i64,
    {
        Self { spectrum: vec![0i64; fft_size / 2], waveform: vec![0i64; fft_size], attack, decay }
    }

    /// Blends the displayed state toward the new frame: each spectrum bin
    /// rises with the attack coefficient and falls with the decay coefficient,
    /// while the waveform uses the fixed symmetric blend. Returns a snapshot
    /// of the new state. Bins beyond the frame's length keep their value.
    pub fn update(&mut self, data: &AudioData) -> (out: AudioData)
        requires
            old(self).wf(),
            data.wf(),
        ensures
            final(self).wf(),
            final(self).spec_attack() == old(self).spec_attack(),
            final(self).spec_decay() == old(self).spec_decay(),
            final(self).spec_spectrum().len() == old(self).spec_spectrum().len(),
            final(self).spec_waveform().len() == old(self).spec_waveform().len(),
            forall|i: int|
                0 <= i < final(self).spec_spectrum().len() ==> final(self).spec_spectrum()[i]
                    == (if i < data.spectrum@.len() {
                    smooth_step(
                        old(self).spec_spectrum()[i] as int,
                        data.spectrum@[i] as int,
                        old(self).spec_attack() as int,
                        old(self).spec_decay() as int,
                    ) as i64
                } else {
                    old(self).spec_spectrum()[i]
                }),
            forall|i: int|
                0 <= i < final(self).spec_waveform().len() ==> final(self).spec_waveform()[i]
                    == (if i < data.waveform@.len() {
                    blend_step(
                        old(self).spec_waveform()[i] as int,
                        data.waveform@[i] as int,
                        WAVEFORM_BLEND as int,
                    ) as i64
                } else {
                    old(self).spec_waveform()[i]
                }),
            out.spectrum@ == final(self).spec_spectrum(),
            out.waveform@ == final(self).spec_waveform(),
            out.wf(),
    {
        let spectrum_len = self.spectrum.len();
        let frame_len = data.spectrum.len();
        let mut i: usize = 0;
        while i < spectrum_len
            invariant
                i <= spectrum_len,
                spectrum_len == self.spectrum@.len(),
                frame_len == data.spectrum@.len(),
                self.attack == old(self).spec_attack(),
                self.decay == old(self).spec_decay(),
                self.waveform@ == old(self).spec_waveform(),
                old(self).wf(),
                data.wf(),
                all_within_limit(self.spectrum@),
                forall|j: int|
                    i <= j < spectrum_len ==> self.spectrum@[j] == old(self).spec_spectrum()[j],
                forall|j: int|
                    0 <= j < i ==> self.spectrum@[j] == (if j < frame_len {
                        smooth_step(
                            old(self).spec_spectrum()[j] as int,
                            data.spectrum@[j] as int,
                            old(self).spec_attack() as int,
                            old(self).spec_decay() as int,
                        ) as i64
                    } else {
                        old(self).spec_spectrum()[j]
                    }),
            decreases spectrum_len - i,
        {
            if i < frame_len {
                let current = self.spectrum[i];
                let target = data.spectrum[i];
                let coef = if target > current {
                    self.attack
                } else {
                    self.decay
                };
                let blended = blend_toward(current, target, coef);
                self.spectrum[i] = blended;
            }
            i = i + 1;
        }
        let waveform_len = self.waveform.len();
        let wave_frame_len = data.waveform.len();
        let mut i: usize = 0;
        while i < waveform_len
            invariant
                i <= waveform_len,
                waveform_len == self.waveform@.len(),
                wave_frame_len == data.waveform@.len(),
                self.attack == old(self).spec_attack(),
                self.decay == old(self).spec_decay(),
                old(self).wf(),
                data.wf(),
                all_within_limit(self.waveform@),
                self.spectrum@.len() == old(self).spec_spectrum().len(),
                all_within_limit(self.spectrum@),
                forall|j: int|
                    0 <= j < self.spectrum@.len() ==> self.spectrum@[j] == (if j < frame_len {
                        smooth_step(
                            old(self).spec_spectrum()[j] as int,
                            data.spectrum@[j] as int,
                            old(self).spec_attack() as int,
                            old(self).spec_decay() as int,
                        ) as i64
                    } else {
                        old(self).spec_spectrum()[j]
                    }),
                frame_len == data.spectrum@.len(),
                forall|j: int|
                    i <= j < waveform_len ==> self.waveform@[j] == old(self).spec_waveform()[j],
                forall|j: int|
                    0 <= j < i ==> self.waveform@[j] == (if j < wave_frame_len {
                        blend_step(
                            old(self).spec_waveform()[j] as int,
                            data.waveform@[j] as int,
                            WAVEFORM_BLEND as int,
                        ) as i64
                    } else {
                        old(self).spec_waveform()[j]
                    }),
            decreases waveform_len - i,
        {
            if i < wave_frame_len {
                let current = self.waveform[i];
                let target = data.waveform[i];
                let blended = blend_toward(current, target, WAVEFORM_BLEND);
                self.waveform[i] = blended;
            }
            i = i + 1;
        }
        AudioData { spectrum: self.spectrum.clone(), waveform: self.waveform.clone() }
    }
}

} // verus!
