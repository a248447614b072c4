use phosphor::capture::{
    choose_source, monitor_source_name, normalize_i16, normalize_u16, pick_device,
    pick_monitor_device, CapturePipeline, SourceKind,
};
use phosphor::ring::RingBuffer;
use phosphor::synth::MockAudioCapture;

#[test]
fn fallback_reaches_synthetic_source() {
    // Both live variants failing their probes always yields the synthetic
    // generator, whatever the device name.
    assert_eq!(choose_source(true, false, false), SourceKind::Mock);
    assert_eq!(choose_source(false, false, false), SourceKind::Mock);
}

#[test]
fn selection_order_prefers_monitor_tap_then_device() {
    assert_eq!(choose_source(true, true, true), SourceKind::Pulse);
    assert_eq!(choose_source(true, true, false), SourceKind::Pulse);
    assert_eq!(choose_source(true, false, true), SourceKind::Cpal);
    // An explicit device name skips the monitor tap.
    assert_eq!(choose_source(false, true, true), SourceKind::Cpal);
    assert_eq!(choose_source(false, true, false), SourceKind::Mock);
}

#[test]
fn synthetic_source_is_deterministic_and_bounded() {
    let mut a = MockAudioCapture::new(64);
    let mut b = MockAudioCapture::new(64);
    for _ in 0..3 {
        let da = a.get_data();
        let db = b.get_data();
        assert_eq!(da.waveform, db.waveform);
        assert_eq!(da.spectrum, db.spectrum);
        assert_eq!(da.waveform.len(), 64);
        assert_eq!(da.spectrum.len(), 32);
        assert!(da.waveform.iter().all(|&s| s.abs() <= 131072));
        assert!(da.spectrum.iter().all(|&v| v >= 0));
    }
}

#[test]
fn synthetic_source_moves_between_frames() {
    let mut m = MockAudioCapture::new(64);
    let first = m.get_data();
    let second = m.get_data();
    assert_ne!(first.waveform, second.waveform, "the phase advances every frame");
}

#[test]
fn pipeline_processes_ring_snapshot() {
    let mut ring = RingBuffer::new(8);
    for s in 1..=10i64 {
        ring.push(s * 100);
    }
    let mut pipe = CapturePipeline::new(8);
    pipe.take_snapshot(&ring);
    let out = pipe.process();
    assert_eq!(out.waveform, vec![300, 400, 500, 600, 700, 800, 900, 1000]);
    assert_eq!(out.spectrum.len(), 4);
    assert!(out.spectrum.iter().all(|&v| v >= 0));
}

#[test]
fn sample_normalization_is_exact() {
    assert_eq!(normalize_i16(0), 0);
    assert_eq!(normalize_i16(32767), 32768);
    assert_eq!(normalize_i16(-32767), -32768);
    assert_eq!(normalize_i16(-32768), -32769);
    assert_eq!(normalize_i16(16384), 16384 * 32768 / 32767);

    assert_eq!(normalize_u16(0), -32768);
    assert_eq!(normalize_u16(65535), 32768);
    assert_eq!(normalize_u16(32768), 32768 * 2 * 32768 / 65535 - 32768);
}

#[test]
fn monitor_name_appends_suffix_to_trimmed_sink() {
    let got = monitor_source_name("  alsa_output.pci  \n");
    assert_eq!(got.as_deref(), Some("alsa_output.pci.monitor"));
    assert_eq!(monitor_source_name(""), None);
    assert_eq!(monitor_source_name(" \t\n"), None);
}

#[test]
fn device_picking_matches_substrings() {
    let names = vec![
        String::from("Built-in Audio"),
        String::from("HDMI Output Monitor"),
        String::from("USB Mic"),
    ];
    assert_eq!(pick_device(&names, &String::from("USB")), Some(2));
    assert_eq!(pick_device(&names, &String::from("Audio")), Some(0));
    assert_eq!(pick_device(&names, &String::from("missing")), None);
    // The monitor rule folds case.
    assert_eq!(pick_monitor_device(&names), Some(1));
    let no_monitor = vec![String::from("a"), String::from("b")];
    assert_eq!(pick_monitor_device(&no_monitor), None);
}
