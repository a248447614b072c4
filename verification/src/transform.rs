//! Window & transform engine: turns a window of fixed-point time-domain
//! samples into a magnitude spectrum.
//!
//! The plan pre-computes a Hann window sized exactly to the transform length
//! and reuses two working buffers on every call, so the steady-state path
//! performs no heap allocation beyond the returned snapshot. Samples are
//! fixed-point integers scaled by `TRIG_SCALE` (32768 stands for 1.0);
//! magnitudes come out on the same scale, divided by the transform size as
//! usual for a forward transform.

use vstd::prelude::*;

use crate::smoothing::all_within_limit;
use crate::trig::{
    cos_turn, cos_turn_spec, lemma_cos_turn_bounds, sin_turn, sin_turn_spec, FULL_TURN, TRIG_SCALE,
};

verus! {

/// Fixed-point scale of samples and magnitudes: `SAMPLE_SCALE` stands for 1.0.
pub const SAMPLE_SCALE: i64 = 32768;

/// Largest sample magnitude the transform accepts: four times full scale,
/// leaving room for transient overshoot while keeping all sums inside `i64`.
pub const SAMPLE_LIMIT: i64 = 131072;

/// Largest supported transform size.
pub const MAX_TRANSFORM_SIZE: usize = 8192;

/// `n` is a positive power of two.
pub open spec fn is_pow2(n: nat) -> bool
    decreases n,
{
    if n == 0 {
        false
    } else if n == 1 {
        true
    } else {
        n % 2 == 0 && is_pow2(n / 2)
    }
}

/// Integer division truncated toward zero (the machine's signed division),
/// for a positive divisor.
pub open spec fn tdiv(x: int, d: int) -> int {
    if x >= 0 {
        x / d
    } else {
        -((-x) / d)
    }
}

/// Angle units per sample index for transform size `n`.
pub open spec fn angle_step(n: int) -> int {
    (FULL_TURN as int) / n
}

/// Hann window coefficient for index `i` of `n`:
/// `(1 - cos(2 pi i / n)) / 2`, in fixed point.
pub open spec fn window_coeff(i: int, n: int) -> int {
    ((TRIG_SCALE as int) - cos_turn_spec(i * angle_step(n))) / 2
}

/// Sample `i` after windowing: `x * w_i`, scaled back down.
pub open spec fn windowed_sample(x: int, i: int, n: int) -> int {
    tdiv(x * window_coeff(i, n), TRIG_SCALE as int)
}

/// Twiddle angle of bin `k`, sample `i`: `k * i / n` turns.
pub open spec fn twiddle_angle(k: int, i: int, n: int) -> int {
    ((k * i) % n) * angle_step(n)
}

/// Real part of bin `k` of the transform of the first `m` windowed samples.
pub open spec fn dft_re_prefix(s: Seq<i64>, k: int, n: int, m: int) -> int
    decreases m,
{
    if m <= 0 {
        0
    } else {
        dft_re_prefix(s, k, n, m - 1) + tdiv(
            windowed_sample(s[m - 1] as int, m - 1, n) * cos_turn_spec(twiddle_angle(k, m - 1, n)),
            TRIG_SCALE as int,
        )
    }
}

/// Imaginary part of bin `k` of the transform of the first `m` windowed
/// samples (forward transform: negative sine).
pub open spec fn dft_im_prefix(s: Seq<i64>, k: int, n: int, m: int) -> int
    decreases m,
{
    if m <= 0 {
        0
    } else {
        dft_im_prefix(s, k, n, m - 1) - tdiv(
            windowed_sample(s[m - 1] as int, m - 1, n) * sin_turn_spec(twiddle_angle(k, m - 1, n)),
            TRIG_SCALE as int,
        )
    }
}

/// Squared magnitude of bin `k` of the transform of `s`.
pub open spec fn spectrum_sq(s: Seq<i64>, k: int, n: int) -> int {
    let re = dft_re_prefix(s, k, n, n);
    let im = dft_im_prefix(s, k, n, n);
    re * re + im * im
}

/// `r` is the integer square root of `x`.
pub open spec fn is_isqrt(r: int, x: int) -> bool {
    0 <= r && r * r <= x && x < (r + 1) * (r + 1)
}

/// The value the transform owes for bin `k`: the integer square root of the
/// squared magnitude, divided by the transform size.
pub open spec fn spectrum_bin_is(s: Seq<i64>, k: int, n: int, v: int) -> bool {
    exists|m: int| #[trigger] is_isqrt(m, spectrum_sq(s, k, n)) && v == m / n
}

/// Every sample of `s` is within the transform's accepted magnitude.
pub open spec fn samples_bounded(s: Seq<i64>) -> bool {
    forall|i: int| 0 <= i < s.len() ==> -SAMPLE_LIMIT <= #[trigger] s[i] <= SAMPLE_LIMIT
}

/// Truncating division toward zero never grows the magnitude ratio: if
/// `|x| <= l` and `|c| <= s` then `|x * c / s| <= l`.
proof fn lemma_tdiv_mul_le(x: int, c: int, s: int, l: int)
    requires
        0 < s,
        0 <= l,
        -l <= x <= l,
        -s <= c <= s,
    ensures
        -l <= tdiv(x * c, s) <= l,
{
    let p = x * c;
    assert(-(l * s) <= p <= l * s) by (nonlinear_arith)
        requires
            -l <= x <= l,
            -s <= c <= s,
            0 <= l,
            0 < s,
            p == x * c,
    ;
    if p >= 0 {
        assert(p / s <= l) by (nonlinear_arith)
            requires
                0 <= p <= l * s,
                0 < s,
        ;
        assert(p / s >= 0) by (nonlinear_arith)
            requires
                0 <= p,
                0 < s,
        ;
    } else {
        assert((-p) / s <= l) by (nonlinear_arith)
            requires
                0 <= -p <= l * s,
                0 < s,
        ;
        assert((-p) / s >= 0) by (nonlinear_arith)
            requires
                0 <= -p,
                0 < s,
        ;
    }
}

/// The angle step of a supported transform size is at least one unit, and
/// `n` steps never exceed a full turn.
pub proof fn lemma_angle_step_bounds(n: int)
    requires
        8 <= n <= MAX_TRANSFORM_SIZE,
    ensures
        1 <= angle_step(n),
        n * angle_step(n) <= FULL_TURN as int,
{
    let f = FULL_TURN as int;
    vstd::arithmetic::div_mod::lemma_div_is_ordered_by_denominator(f, n, f);
    vstd::arithmetic::div_mod::lemma_div_by_self(f);
    vstd::arithmetic::div_mod::lemma_remainder_lower(f, n);
    assert(f / n * n == n * (f / n)) by (nonlinear_arith);
}

/// Divides by the fixed-point scale, truncating toward zero.
fn scale_down(x: i64) -> (r: i64)
    requires
        -0x4000_0000_0000_0000 < x < 0x4000_0000_0000_0000,
    ensures
        r == tdiv(x as int, TRIG_SCALE as int),
{
    if x >= 0 {
        ((x as u64) / (TRIG_SCALE as u64)) as i64
    } else {
        -((((-x) as u64) / (TRIG_SCALE as u64)) as i64)
    }
}

/// Integer square root by bisection.
fn isqrt(x: u64) -> (r: u64)
    requires
        x < 0x4000_0000_0000_0000,
    ensures
        is_isqrt(r as int, x as int),
{
    let mut lo: u64 = 0;
    let mut hi: u64 = 0x8000_0000;
    proof {
        assert((hi as int) * (hi as int) > x as int) by (nonlinear_arith)
            requires
                hi == 0x8000_0000u64,
                x < 0x4000_0000_0000_0000u64,
        ;
    }
    while hi - lo > 1
        invariant
            lo < hi <= 0x8000_0000,
            (lo as int) * (lo as int) <= x as int,
            (hi as int) * (hi as int) > x as int,
        decreases hi - lo,
    {
        let mid: u64 = lo + (hi - lo) / 2;
        proof {
            assert((mid as int) * (mid as int) < 0x4000_0000_0000_0000) by (nonlinear_arith)
                requires
                    mid < 0x8000_0000u64,
            ;
        }
        if mid * mid <= x {
            lo = mid;
        } else {
            hi = mid;
        }
    }
    lo
}

/// Reusable transform plan: the Hann window for a fixed size, plus working
/// buffers so the per-frame path allocates nothing.
pub struct TransformPlan {
    n: usize,
    window: Vec<i64>,
    windowed_buf: Vec<i64>,
    spectrum_buf: Vec<i64>,
}

impl TransformPlan {
    /// Internal invariant: the size is a supported power of two, the window
    /// holds exactly the Hann coefficients, and the working buffers keep the
    /// right lengths and bounded values.
    pub closed spec fn wf(&self) -> bool {
        &&& 8 <= self.n <= MAX_TRANSFORM_SIZE
        &&& is_pow2(self.n as nat)
        &&& self.window@.len() == self.n
        &&& forall|i: int|
            0 <= i < self.n ==> #[trigger] self.window@[i] == window_coeff(i, self.n as int)
        &&& self.windowed_buf@.len() == self.n
        &&& forall|i: int|
            0 <= i < self.n ==> -SAMPLE_LIMIT <= #[trigger] self.windowed_buf@[i] <= SAMPLE_LIMIT
        &&& self.spectrum_buf@.len() == self.n / 2
        &&& forall|i: int|
            0 <= i < self.n / 2 ==> 0 <= #[trigger] self.spectrum_buf@[i] <= 2 * SAMPLE_LIMIT
    }

    /// The transform size.
    pub closed spec fn spec_n(&self) -> usize {
        self.n
    }

    /// Checks that `n` is a positive power of two.
    pub fn size_is_pow2(n: usize) -> (r: bool)
        ensures
            r == is_pow2(n as nat),
    {
        let mut m: usize = n;
        if m == 0 {
            return false;
        }
        while m > 1 && m % 2 == 0
            invariant
                1 <= m,
                is_pow2(n as nat) == is_pow2(m as nat),
            decreases m,
        {
            m = m / 2;
        }
        m == 1
    }

    /// Builds the plan for transform size `n`: a power of two between 8 and
    /// `MAX_TRANSFORM_SIZE`. Pre-computes the Hann window once.
    pub fn new(n: usize) -> (r: Self)
        requires
            8 <= n <= MAX_TRANSFORM_SIZE,
            is_pow2(n as nat),
        ensures
            r.wf(),
            r.spec_n() == n,
    {
        let step: usize = (FULL_TURN as usize) / n;
        proof {
            lemma_angle_step_bounds(n as int);
        }
        let mut window: Vec<i64> = Vec::new();
        let mut i: usize = 0;
        while i < n
            invariant
                i <= n,
                8 <= n <= MAX_TRANSFORM_SIZE,
                step == (FULL_TURN as int) / (n as int),
                (n as int) * (step as int) <= FULL_TURN as int,
                1 <= step,
                window@.len() == i,
                forall|j: int| 0 <= j < i ==> #[trigger] window@[j] == window_coeff(j, n as int),
            decreases n - i,
        {
            proof {
                assert((i as int) * (step as int) < (n as int) * (step as int))
                    by (nonlinear_arith)
                    requires
                        0 <= (i as int) < (n as int),
                        1 <= step as int,
                ;
            }
            let angle: i64 = ((i * step) as i64);
            let c = cos_turn(angle);
            let w: i64 = (((TRIG_SCALE - c) as u64) / 2) as i64;
            proof {
                assert(w == window_coeff(i as int, n as int));
            }
            window.push(w);
            i = i + 1;
        }
        proof {
            assert(forall|j: int|
                0 <= j < n ==> 0 <= #[trigger] window_coeff(j, n as int) <= TRIG_SCALE) by {
                assert forall|j: int| 0 <= j < n implies 0 <= #[trigger] window_coeff(
                    j,
                    n as int,
                ) <= TRIG_SCALE by {
                    assert((j as int) * (angle_step(n as int)) < FULL_TURN as int)
                        by (nonlinear_arith)
                        requires
                            0 <= j < n as int,
                            (n as int) * angle_step(n as int) <= FULL_TURN as int,
                            1 <= angle_step(n as int),
                    ;
                    lemma_cos_turn_bounds(j * angle_step(n as int));
                }
            }
        }
        Self { n, window, windowed_buf: vec![0i64; n], spectrum_buf: vec![0i64; n / 2] }
    }

    /// Computes the magnitude spectrum of one window of samples.
    ///
    /// Each of the `n / 2` output bins is the integer square root of the
    /// squared magnitude of the windowed forward transform at that bin,
    /// divided by the transform size: non-negative, bounded, and zero whenever
    /// the input is all zero.
    pub fn transform(&mut self, samples: &Vec<i64>) -> (out: Vec<i64>)
        requires
            old(self).wf(),
            samples@.len() == old(self).spec_n(),
            samples_bounded(samples@),
        ensures
            final(self).wf(),
            final(self).spec_n() == old(self).spec_n(),
            out@.len() == old(self).spec_n() / 2,
            forall|k: int|
                0 <= k < out@.len() ==> spectrum_bin_is(
                    samples@,
                    k,
                    old(self).spec_n() as int,
                    #[trigger] out@[k] as int,
                ),
            forall|k: int| 0 <= k < out@.len() ==> 0 <= #[trigger] out@[k] <= 2 * SAMPLE_LIMIT,
            (forall|i: int| 0 <= i < samples@.len() ==> #[trigger] samples@[i] == 0i64)
                ==> (forall|k: int| 0 <= k < out@.len() ==> #[trigger] out@[k] == 0i64),
            all_within_limit(out@),
    {
        let n = self.n;
        let ghost all_zero = forall|i: int|
            0 <= i < samples@.len() ==> #[trigger] samples@[i] == 0i64;

        // Apply the window into the reusable buffer.
        let mut i: usize = 0;
        while i < n
            invariant
                i <= n,
                self.wf(),
                self.n == n,
                self.window@ == old(self).window@,
                self.spectrum_buf@ == old(self).spectrum_buf@,
                samples@.len() == n,
                samples_bounded(samples@),
                all_zero == (forall|j: int|
                    0 <= j < samples@.len() ==> #[trigger] samples@[j] == 0i64),
                forall|j: int|
                    0 <= j < i ==> #[trigger] self.windowed_buf@[j] == windowed_sample(
                        samples@[j] as int,
                        j,
                        n as int,
                    ),
                all_zero ==> forall|j: int| 0 <= j < i ==> #[trigger] self.windowed_buf@[j] == 0i64,
            decreases n - i,
        {
            let x = samples[i];
            let w = self.window[i];
            proof {
                lemma_angle_step_bounds(n as int);
                assert((i as int) * (angle_step(n as int)) < FULL_TURN as int) by (nonlinear_arith)
                    requires
                        0 <= (i as int) < (n as int),
                        (n as int) * angle_step(n as int) <= FULL_TURN as int,
                        1 <= angle_step(n as int),
                ;
                lemma_cos_turn_bounds((i as int) * angle_step(n as int));
                assert(-0x4000_0000_0000_0000 < (x as int) * (w as int) < 0x4000_0000_0000_0000)
                    by (nonlinear_arith)
                    requires
                        -SAMPLE_LIMIT <= x as int <= SAMPLE_LIMIT,
                        0 <= w as int <= TRIG_SCALE,
                ;
                lemma_tdiv_mul_le(x as int, w as int, TRIG_SCALE as int, SAMPLE_LIMIT as int);
            }
            let v = scale_down(x * w);
            proof {
                if all_zero {
                    assert(x == 0i64);
                    assert((x as int) * (w as int) == 0) by (nonlinear_arith)
                        requires
                            x as int == 0,
                    ;
                    assert(tdiv(0, TRIG_SCALE as int) == 0);
                }
            }
            self.windowed_buf[i] = v;
            i = i + 1;
        }

        // One bin at a time: accumulate the windowed transform and take the
        // magnitude.
        let half = n / 2;
        let step: usize = (FULL_TURN as usize) / n;
        proof {
            lemma_angle_step_bounds(n as int);
        }
        let mut k: usize = 0;
        while k < half
            invariant
                k <= half,
                half == n / 2,
                self.wf(),
                self.n == n,
                self.window@ == old(self).window@,
                step == angle_step(n as int),
                (n as int) * (step as int) <= FULL_TURN as int,
                1 <= step,
                samples@.len() == n,
                samples_bounded(samples@),
                all_zero == (forall|j: int|
                    0 <= j < samples@.len() ==> #[trigger] samples@[j] == 0i64),
                forall|j: int|
                    0 <= j < n ==> #[trigger] self.windowed_buf@[j] == windowed_sample(
                        samples@[j] as int,
                        j,
                        n as int,
                    ),
                all_zero ==> forall|j: int| 0 <= j < n ==> #[trigger] self.windowed_buf@[j] == 0i64,
                forall|j: int|
                    0 <= j < k ==> spectrum_bin_is(
                        samples@,
                        j,
                        n as int,
                        #[trigger] self.spectrum_buf@[j] as int,
                    ),
                forall|j: int|
                    0 <= j < k ==> 0 <= #[trigger] self.spectrum_buf@[j] <= 2 * SAMPLE_LIMIT,
                all_zero ==> forall|j: int|
                    0 <= j < k ==> #[trigger] self.spectrum_buf@[j] == 0i64,
            decreases half - k,
        {
            let mut re: i64 = 0;
            let mut im: i64 = 0;
            let mut i: usize = 0;
            while i < n
                invariant
                    i <= n,
                    k < half,
                    half == n / 2,
                    self.wf(),
                    self.n == n,
                    step == angle_step(n as int),
                    (n as int) * (step as int) <= FULL_TURN as int,
                    1 <= step,
                    samples@.len() == n,
                    all_zero == (forall|j: int|
                        0 <= j < samples@.len() ==> #[trigger] samples@[j] == 0i64),
                    forall|j: int|
                        0 <= j < n ==> #[trigger] self.windowed_buf@[j] == windowed_sample(
                            samples@[j] as int,
                            j,
                            n as int,
                        ),
                    all_zero ==> forall|j: int|
                        0 <= j < n ==> #[trigger] self.windowed_buf@[j] == 0i64,
                    re == dft_re_prefix(samples@, k as int, n as int, i as int),
                    im == dft_im_prefix(samples@, k as int, n as int, i as int),
                    -(i as int) * (SAMPLE_LIMIT as int) <= re as int <= (i as int) * (
                    SAMPLE_LIMIT as int),
                    -(i as int) * (SAMPLE_LIMIT as int) <= im as int <= (i as int) * (
                    SAMPLE_LIMIT as int),
                    all_zero ==> re == 0 && im == 0,
                decreases n - i,
            {
                proof {
                    assert(half <= 4096);
                    assert(k * i <= 4096 * 8192) by (nonlinear_arith)
                        requires
                            0 <= k as int <= 4096,
                            0 <= i as int <= 8192,
                    ;
                }
                let idx: usize = (k * i) % n;
                proof {
                    assert((idx as int) * (step as int) < FULL_TURN as int) by (nonlinear_arith)
                        requires
                            0 <= (idx as int) < (n as int),
                            (n as int) * (step as int) <= FULL_TURN as int,
                            1 <= step as int,
                    ;
                }
                let angle: i64 = ((idx * step) as i64);
                let c = cos_turn(angle);
                let s = sin_turn(angle);
                let x = self.windowed_buf[i];
                proof {
                    assert(-0x4000_0000_0000_0000 < (x as int) * (c as int) < 0x4000_0000_0000_0000
                        && -0x4000_0000_0000_0000 < (x as int) * (s as int)
                        < 0x4000_0000_0000_0000) by (nonlinear_arith)
                        requires
                            -SAMPLE_LIMIT <= x as int <= SAMPLE_LIMIT,
                            -TRIG_SCALE <= c as int <= TRIG_SCALE,
                            -TRIG_SCALE <= s as int <= TRIG_SCALE,
                    ;
                    lemma_tdiv_mul_le(x as int, c as int, TRIG_SCALE as int, SAMPLE_LIMIT as int);
                    lemma_tdiv_mul_le(x as int, s as int, TRIG_SCALE as int, SAMPLE_LIMIT as int);
                    assert((i + 1) * (SAMPLE_LIMIT as int) == i * (SAMPLE_LIMIT as int)
                        + SAMPLE_LIMIT) by (nonlinear_arith);
                    assert(i * (SAMPLE_LIMIT as int) <= 8192 * (SAMPLE_LIMIT as int))
                        by (nonlinear_arith)
                        requires
                            0 <= i as int <= 8192,
                    ;
                }
                let term_re = scale_down(x * c);
                let term_im = scale_down(x * s);
                proof {
                    if all_zero {
                        assert(x == 0i64);
                        assert((0int) * (c as int) == 0 && (0int) * (s as int) == 0)
                            by (nonlinear_arith);
                    }
                    assert(idx as int == (k as int * i as int) % (n as int));
                }
                re = re + term_re;
                im = im - term_im;
                i = i + 1;
            }
            proof {
                let nl = (n as int) * (SAMPLE_LIMIT as int);
                assert(nl <= 0x4000_0000) by (nonlinear_arith)
                    requires
                        8 <= n as int <= 8192,
                        nl == (n as int) * (SAMPLE_LIMIT as int),
                ;
                assert((i as int) * (SAMPLE_LIMIT as int) == nl);
                assert(-0x4000_0000 <= re as int <= 0x4000_0000);
                assert(-0x4000_0000 <= im as int <= 0x4000_0000);
                assert((re as int) * (re as int) + (im as int) * (im as int) < 0x4000_0000_0000_0000
                    && 0 <= (re as int) * (re as int) && 0 <= (im as int) * (im as int))
                    by (nonlinear_arith)
                    requires
                        -0x4000_0000 <= re as int <= 0x4000_0000,
                        -0x4000_0000 <= im as int <= 0x4000_0000,
                ;
            }
            let sq_re: i64 = re * re;
            let sq_im: i64 = im * im;
            let sq: u64 = (sq_re + sq_im) as u64;
            let m = isqrt(sq);
            proof {
                assert((m as int) < 0x8000_0000) by (nonlinear_arith)
                    requires
                        is_isqrt(m as int, sq as int),
                        sq < 0x4000_0000_0000_0000u64,
                ;
                vstd::arithmetic::div_mod::lemma_div_nonincreasing(m as int, n as int);
            }
            let bin: i64 = ((m as u64) / (n as u64)) as i64;
            proof {
                // The root is at most twice n * SAMPLE_LIMIT, so the bin fits
                // its bound after the division by n.
                let mi = m as int;
                let ni = n as int;
                let rei = re as int;
                let imi = im as int;
                let nl = ni * (SAMPLE_LIMIT as int);
                assert(mi <= 2 * nl) by (nonlinear_arith)
                    requires
                        is_isqrt(mi, rei * rei + imi * imi),
                        -nl <= rei <= nl,
                        -nl <= imi <= nl,
                        0 <= nl,
                ;
                assert(mi / ni <= 2 * SAMPLE_LIMIT && 0 <= mi / ni) by (nonlinear_arith)
                    requires
                        0 <= mi <= 2 * ni * (SAMPLE_LIMIT as int),
                        8 <= ni,
                ;
                assert(bin as int == mi / ni);
                assert(is_isqrt(mi, spectrum_sq(samples@, k as int, n as int)));
                assert(spectrum_bin_is(samples@, k as int, n as int, bin as int));
                if all_zero {
                    assert(spectrum_sq(samples@, k as int, n as int) == 0);
                    assert(mi * mi <= 0);
                    assert(mi == 0) by (nonlinear_arith)
                        requires
                            0 <= mi,
                            mi * mi <= 0,
                    ;
                }
            }
            self.spectrum_buf[k] = bin;
            k = k + 1;
        }
        let out = self.spectrum_buf.clone();
        proof {
            assert(out@ =~= self.spectrum_buf@);
        }
        out
    }

    /// The transform size of this plan.
    pub fn size(&self) -> (r: usize)
        requires
            self.wf(),
        ensures
            r == self.spec_n(),
    {
        self.n
    }
}

/// The transform of an all-zero window is all zero: every squared magnitude
/// vanishes, so every bin is zero.
pub proof fn lemma_zero_input_zero_spectrum(s: Seq<i64>, k: int, n: int, m: int)
    requires
        forall|i: int| 0 <= i < s.len() ==> #[trigger] s[i] == 0i64,
        0 <= m <= s.len(),
        n == s.len(),
    ensures
        dft_re_prefix(s, k, n, m) == 0,
        dft_im_prefix(s, k, n, m) == 0,
        m == n ==> spectrum_sq(s, k, n) == 0,
    decreases m,
{
    if m > 0 {
        lemma_zero_input_zero_spectrum(s, k, n, m - 1);
        assert((0int) * window_coeff(m - 1, n) == 0) by (nonlinear_arith);
        assert((0int) * cos_turn_spec(twiddle_angle(k, m - 1, n)) == 0) by (nonlinear_arith);
        assert((0int) * sin_turn_spec(twiddle_angle(k, m - 1, n)) == 0) by (nonlinear_arith);
    }
}

} // verus!
