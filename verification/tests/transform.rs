use phosphor::transform::TransformPlan;
use phosphor::trig::{sin_turn, FULL_TURN, TRIG_SCALE};

#[test]
fn zero_input_gives_zero_spectrum() {
    // For every supported power-of-two size, silence transforms to silence.
    for n in [8usize, 16, 64, 256, 1024, 2048] {
        let mut plan = TransformPlan::new(n);
        let spectrum = plan.transform(&vec![0i64; n]);
        assert_eq!(spectrum.len(), n / 2);
        assert!(spectrum.iter().all(|&v| v == 0), "size {} not silent", n);
    }
}

#[test]
fn spectrum_values_are_non_negative_and_bounded() {
    let n = 128usize;
    let mut plan = TransformPlan::new(n);
    // A deterministic, rough signal with values across the accepted range.
    let samples: Vec<i64> = (0..n)
        .map(|i| {
            let x = (i as i64 * 2654435761 % 262145) - 131072;
            x
        })
        .collect();
    assert!(samples.iter().all(|&s| -131072 <= s && s <= 131072));
    let spectrum = plan.transform(&samples);
    assert_eq!(spectrum.len(), n / 2);
    for &v in &spectrum {
        assert!(v >= 0, "magnitudes are never negative");
        assert!(v <= 2 * 131072, "magnitudes stay within their bound");
    }
}

#[test]
fn pure_tone_peaks_at_its_bin() {
    // A sine at bin frequency k dominates the spectrum at bin k, give or
    // take one bin of windowing leakage.
    for (n, k) in [(64usize, 4usize), (64, 9), (128, 8), (256, 3)] {
        let step = (FULL_TURN as usize) / n;
        let samples: Vec<i64> = (0..n)
            .map(|i| sin_turn((((i * k) % n) * step) as i64))
            .collect();
        assert!(samples.iter().all(|&s| s.abs() <= TRIG_SCALE));
        let mut plan = TransformPlan::new(n);
        let spectrum = plan.transform(&samples);
        let mut peak = 0usize;
        for (i, &v) in spectrum.iter().enumerate() {
            if v > spectrum[peak] {
                peak = i;
            }
        }
        assert!(
            peak + 1 >= k && peak <= k + 1,
            "size {}: peak at {} instead of {}",
            n,
            peak,
            k
        );
    }
}

#[test]
fn tone_amplitude_scales_the_peak() {
    let n = 64usize;
    let k = 6usize;
    let step = (FULL_TURN as usize) / n;
    let loud: Vec<i64> = (0..n).map(|i| sin_turn((((i * k) % n) * step) as i64)).collect();
    let quiet: Vec<i64> = loud.iter().map(|&s| s / 4).collect();
    let mut plan = TransformPlan::new(n);
    let loud_spec = plan.transform(&loud);
    let quiet_spec = plan.transform(&quiet);
    assert!(loud_spec[k] > 2 * quiet_spec[k]);
    assert!(quiet_spec[k] > 0);
}

#[test]
fn size_check_accepts_only_powers_of_two() {
    assert!(TransformPlan::size_is_pow2(1));
    assert!(TransformPlan::size_is_pow2(2));
    assert!(TransformPlan::size_is_pow2(2048));
    assert!(!TransformPlan::size_is_pow2(0));
    assert!(!TransformPlan::size_is_pow2(3));
    assert!(!TransformPlan::size_is_pow2(100));
    assert!(!TransformPlan::size_is_pow2(2047));
}

#[test]
fn plan_reports_its_size() {
    let plan = TransformPlan::new(512);
    assert_eq!(plan.size(), 512);
}
