use phosphor::smoothing::{blend_toward, AudioData, SmoothedAudio};

#[test]
fn rising_case_exact_value() {
    // current 0.2, new 0.8, attack 0.6 (thousandths): 0.2 + 0.6 * 0.6 = 0.56
    assert_eq!(blend_toward(200, 800, 600), 560);
}

#[test]
fn falling_case_exact_value() {
    // current 0.8, new 0.2, decay 0.15: 0.8 + 0.15 * (0.2 - 0.8) = 0.71
    assert_eq!(blend_toward(800, 200, 150), 710);
}

#[test]
fn blend_never_overshoots() {
    let mut v = 0i64;
    for _ in 0..1000 {
        v = blend_toward(v, 1000, 999);
        assert!(v <= 1000);
    }
    assert_eq!(v, 1000);
    for _ in 0..1000 {
        v = blend_toward(v, -500, 999);
        assert!(v >= -500);
    }
    assert_eq!(v, -500);
}

#[test]
fn update_applies_attack_and_decay_per_bin() {
    let mut sm = SmoothedAudio::new(4, 600, 150);
    let frame = AudioData {
        spectrum: vec![800, 200],
        waveform: vec![1000, -1000, 0, 500],
    };
    let out = sm.update(&frame);
    // rising from 0 with attack 0.6
    assert_eq!(out.spectrum[0], 480);
    assert_eq!(out.spectrum[1], 120);
    // waveform blends 70% new / 30% old
    assert_eq!(out.waveform, vec![700, -700, 0, 350]);

    let frame2 = AudioData {
        spectrum: vec![0, 200],
        waveform: vec![0, 0, 0, 0],
    };
    let out2 = sm.update(&frame2);
    // falling with decay 0.15: 480 - ceil(480 * 0.15) = 480 - 72
    assert_eq!(out2.spectrum[0], 408);
    // rising again: 120 + ceil(80 * 0.6) = 168
    assert_eq!(out2.spectrum[1], 168);
    assert_eq!(out2.waveform, vec![210, -210, 0, 105]);
}

#[test]
fn update_keeps_bins_beyond_frame() {
    let mut sm = SmoothedAudio::new(8, 500, 500);
    let short = AudioData { spectrum: vec![100, 100], waveform: vec![] };
    let out = sm.update(&short);
    assert_eq!(out.spectrum.len(), 4);
    assert_eq!(out.spectrum[0], 50);
    assert_eq!(out.spectrum[1], 50);
    assert_eq!(out.spectrum[2], 0);
    assert_eq!(out.spectrum[3], 0);
}

#[test]
fn constant_frames_converge_monotonically() {
    // One unit is a millionth of full scale; 1e-3 is 1000 units.
    let mut sm = SmoothedAudio::new(2048, 600, 150);
    let target = 1_000_000i64;
    let frame = AudioData {
        spectrum: vec![target; 1024],
        waveform: vec![0; 2048],
    };
    let mut last = 0i64;
    let mut at_8 = 0i64;
    let mut final_value = 0i64;
    for n in 1..=100 {
        let out = sm.update(&frame);
        let v = out.spectrum[0];
        assert!(v >= last, "smoothed value must not fall while rising");
        assert!(v <= target, "smoothed value must never overshoot");
        // every bin behaves identically
        assert_eq!(out.spectrum[0], out.spectrum[1023]);
        last = v;
        if n == 8 {
            at_8 = v;
        }
        final_value = v;
    }
    // 1 - 0.4^8 > 0.999: converged to within 1e-3 by the eighth frame.
    assert!(target - at_8 <= 1000, "expected convergence within 1e-3 after 8 frames");
    assert!(target - final_value <= 1000);
    assert_eq!(final_value, target, "rounding toward the target converges exactly");
}
