//! Capture source selection and the consumer side of the capture pipeline.
//!
//! Three capture variants exist, tried in order at startup: the audio-server
//! monitor tap, native device capture, and the synthetic generator. Selection
//! happens once; a variant whose construction fails falls back to the next,
//! and the synthetic generator never fails. The producer threads and
//! subprocesses live outside this crate; they feed the shared `RingBuffer`,
//! and `CapturePipeline` turns a snapshot of it into a frame.

use vstd::prelude::*;
use vstd::string::StringExecFns;

use crate::ring::RingBuffer;
use crate::smoothing::AudioData;
use crate::text::{contains_seq, lower_seq, chars_contains, str_to_chars, to_ascii_lower, trim_chars, trim_spec};
use crate::transform::{
    is_pow2, samples_bounded, spectrum_bin_is, TransformPlan, MAX_TRANSFORM_SIZE, SAMPLE_LIMIT,
    SAMPLE_SCALE,
};

verus! {

/// The capture variant in use, frozen at construction.
#[derive(Clone, Copy, PartialEq, Eq, Structural, Debug)]
pub enum SourceKind {
    /// Audio-server monitor tap streamed by a subprocess.
    Pulse,
    /// Native device capture through the platform audio API.
    Cpal,
    /// Deterministic synthetic generator.
    Mock,
}

/// Picks the capture variant from the availability probes, in fallback order:
/// the monitor tap is tried only for auto-detection (empty device name), the
/// native device next, and the synthetic generator is the guaranteed last
/// resort.
pub fn choose_source(device_name_empty: bool, pulse_ok: bool, cpal_ok: bool) -> (r: SourceKind)
    ensures
        r == SourceKind::Pulse <==> (device_name_empty && pulse_ok),
        r != SourceKind::Pulse ==> (r == SourceKind::Cpal <==> cpal_ok),
        !pulse_ok && !cpal_ok ==> r == SourceKind::Mock,
{
    if device_name_empty && pulse_ok {
        SourceKind::Pulse
    } else if cpal_ok {
        SourceKind::Cpal
    } else {
        SourceKind::Mock
    }
}

/// Consumer side of a live capture: copies the latest ring-buffer snapshot
/// into its reusable waveform buffer and computes the spectrum. When the
/// producer holds the lock, the caller simply skips the copy and processes
/// the previous snapshot again — this stage never blocks and never fails.
pub struct CapturePipeline {
    plan: TransformPlan,
    waveform_buf: Vec<i64>,
}

impl CapturePipeline {
    /// Internal invariant: the waveform buffer matches the plan's size and
    /// holds samples the transform accepts.
    pub closed spec fn wf(&self) -> bool {
        &&& self.plan.wf()
        &&& self.waveform_buf@.len() == self.plan.spec_n()
        &&& samples_bounded(self.waveform_buf@)
    }

    /// The transform size.
    pub closed spec fn spec_n(&self) -> usize {
        self.plan.spec_n()
    }

    /// A pipeline for the given transform size, starting from silence.
    pub fn new(fft_size: usize) -> (r: Self)
        requires
            8 <= fft_size <= MAX_TRANSFORM_SIZE,
            is_pow2(fft_size as nat),
        ensures
            r.wf(),
            r.spec_n() == fft_size,
    {
        Self { plan: TransformPlan::new(fft_size), waveform_buf: vec![0i64; fft_size] }
    }

    /// Copies the ring buffer's samples (oldest first) into the waveform
    /// buffer. Called only when the producer's lock was free.
    pub fn take_snapshot(&mut self, ring: &RingBuffer)
        requires
            old(self).wf(),
            ring.wf(),
            ring.view().len() == old(self).spec_n(),
            samples_bounded(ring.view()),
        ensures
            final(self).wf(),
            final(self).spec_n() == old(self).spec_n(),
            final(self).spec_waveform() == ring.view(),
    {
        ring.copy_ordered_into(&mut self.waveform_buf);
    }

    /// The current waveform snapshot.
    pub closed spec fn spec_waveform(&self) -> Seq<i64> {
        self.waveform_buf@
    }

    /// Computes the frame for the current snapshot: the waveform as stored
    /// and its magnitude spectrum.
    pub fn process(&mut self) -> (out: AudioData)
        requires
            old(self).wf(),
        ensures
            final(self).wf(),
            final(self).spec_n() == old(self).spec_n(),
            final(self).spec_waveform() == old(self).spec_waveform(),
            out.waveform@ == old(self).spec_waveform(),
            out.spectrum@.len() == old(self).spec_n() / 2,
            forall|k: int|
                0 <= k < out.spectrum@.len() ==> spectrum_bin_is(
                    out.waveform@,
                    k,
                    old(self).spec_n() as int,
                    #[trigger] out.spectrum@[k] as int,
                ),
            out.wf(),
    {
        let waveform = self.waveform_buf.clone();
        proof {
            assert(waveform@ =~= self.waveform_buf@);
        }
        let spectrum = self.plan.transform(&waveform);
        AudioData { spectrum, waveform }
    }
}

/// Normalizes a signed 16-bit device sample to fixed point: `s / 32767` of
/// full scale, truncated toward zero.
pub fn normalize_i16(s: i16) -> (r: i64)
    ensures
        r as int == crate::transform::tdiv((s as int) * (SAMPLE_SCALE as int), 32767),
        -SAMPLE_LIMIT <= r <= SAMPLE_LIMIT,
{
    if s >= 0 {
        proof {
            assert((s as int) * (SAMPLE_SCALE as int) <= 32767 * (SAMPLE_SCALE as int)
                && 0 <= (s as int) * (SAMPLE_SCALE as int)) by (nonlinear_arith)
                requires
                    0 <= s as int <= 32767,
            ;
            assert((s as int) * (SAMPLE_SCALE as int) / 32767 <= 2 * SAMPLE_SCALE && 0 <= (s as int)
                * (SAMPLE_SCALE as int) / 32767) by (nonlinear_arith)
                requires
                    0 <= (s as int) * (SAMPLE_SCALE as int) <= 32767 * (SAMPLE_SCALE as int),
            ;
        }
        (((s as u64) * (SAMPLE_SCALE as u64)) / 32767) as i64
    } else {
        let m: u64 = (-(s as i64)) as u64;
        proof {
            assert((m as int) * (SAMPLE_SCALE as int) <= 32768 * (SAMPLE_SCALE as int))
                by (nonlinear_arith)
                requires
                    0 <= m as int <= 32768,
            ;
            assert((m as int) * (SAMPLE_SCALE as int) / 32767 <= 2 * SAMPLE_SCALE)
                by (nonlinear_arith)
                requires
                    0 <= (m as int) * (SAMPLE_SCALE as int) <= 32768 * (SAMPLE_SCALE as int),
            ;
            assert(0 <= (m as int) * (SAMPLE_SCALE as int) / 32767) by (nonlinear_arith)
                requires
                    0 <= (m as int) * (SAMPLE_SCALE as int),
            ;
        }
        -(((m * (SAMPLE_SCALE as u64)) / 32767) as i64)
    }
}

/// Normalizes an unsigned 16-bit device sample to fixed point:
/// `2 s / 65535 - 1` of full scale.
pub fn normalize_u16(s: u16) -> (r: i64)
    ensures
        r as int == ((s as int) * 2 * (SAMPLE_SCALE as int)) / 65535 - (SAMPLE_SCALE as int),
        -SAMPLE_LIMIT <= r <= SAMPLE_LIMIT,
{
    let scaled: u64 = ((s as u64) * 2 * (SAMPLE_SCALE as u64)) / 65535;
    proof {
        assert((s as int) * 2 * (SAMPLE_SCALE as int) <= 65535 * 2 * (SAMPLE_SCALE as int))
            by (nonlinear_arith)
            requires
                0 <= s as int <= 65535,
        ;
        assert(((s as int) * 2 * (SAMPLE_SCALE as int)) / 65535 <= 3 * SAMPLE_SCALE)
            by (nonlinear_arith)
            requires
                0 <= (s as int) * 2 * (SAMPLE_SCALE as int) <= 65535 * 2 * (SAMPLE_SCALE as int),
        ;
        assert(0 <= ((s as int) * 2 * (SAMPLE_SCALE as int)) / 65535) by (nonlinear_arith)
            requires
                0 <= (s as int) * 2 * (SAMPLE_SCALE as int),
        ;
    }
    (scaled as i64) - SAMPLE_SCALE
}

/// The monitor source belonging to a default-sink name reported by the audio
/// server: the trimmed name with `.monitor` appended, or nothing when the
/// reply was empty.
pub fn monitor_source_name(sink_reply: &str) -> (r: Option<String>)
    ensures
        match r {
            Some(name) => trim_spec(sink_reply@).len() > 0 && name@ == trim_spec(sink_reply@)
                + ".monitor"@,
            None => trim_spec(sink_reply@).len() == 0,
        },
{
    let chars = str_to_chars(sink_reply);
    let trimmed = trim_chars(&chars);
    if trimmed.len() == 0 {
        return None;
    }
    let name = crate::text::chars_to_string(&trimmed);
    Some(name.concat(".monitor"))
}

/// `names[i]` contains the needle.
pub open spec fn name_matches(names: Seq<Seq<char>>, ndl: Seq<char>, i: int) -> bool {
    0 <= i < names.len() && contains_seq(names[i], ndl)
}

/// The index of the first device name that contains `needle`, if any: the
/// rule used to honor an explicitly requested device.
pub fn pick_device(names: &Vec<String>, needle: &String) -> (r: Option<usize>)
    ensures
        match r {
            Some(i) => i < names@.len() && contains_seq(names@[i as int]@, needle@) && forall|
                p: int,
            | 0 <= p < i ==> !contains_seq(#[trigger] names@[p]@, needle@),
            None => forall|p: int|
                0 <= p < names@.len() ==> !contains_seq(#[trigger] names@[p]@, needle@),
        },
{
    let ndl = str_to_chars(needle.as_str());
    let count = names.len();
    let mut i: usize = 0;
    while i < count
        invariant
            i <= count,
            count == names@.len(),
            ndl@ == needle@,
            forall|p: int| 0 <= p < i ==> !contains_seq(#[trigger] names@[p]@, needle@),
        decreases count - i,
    {
        let name_chars = str_to_chars(names[i].as_str());
        if chars_contains(&name_chars, &ndl) {
            return Some(i);
        }
        i = i + 1;
    }
    None
}

/// The index of the first device name that contains `monitor` (after ASCII
/// lower-casing), if any: the auto-detection rule for loopback sources.
pub fn pick_monitor_device(names: &Vec<String>) -> (r: Option<usize>)
    ensures
        match r {
            Some(i) => i < names@.len() && contains_seq(
                lower_seq(names@[i as int]@),
                "monitor"@,
            ) && forall|p: int|
                0 <= p < i ==> !contains_seq(
                    #[trigger] lower_seq(names@[p]@),
                    "monitor"@,
                ),
            None => forall|p: int|
                0 <= p < names@.len() ==> !contains_seq(
                    #[trigger] lower_seq(names@[p]@),
                    "monitor"@,
                ),
        },
{
    let ndl = str_to_chars("monitor");
    let count = names.len();
    let mut i: usize = 0;
    while i < count
        invariant
            i <= count,
            count == names@.len(),
            ndl@ == "monitor"@,
            forall|p: int|
                0 <= p < i ==> !contains_seq(
                    #[trigger] lower_seq(names@[p]@),
                    "monitor"@,
                ),
        decreases count - i,
    {
        let name_chars = str_to_chars(names[i].as_str());
        let lowered = to_ascii_lower(&name_chars);
        proof {
            assert(lowered@ =~= lower_seq(names@[i as int]@));
        }
        if chars_contains(&lowered, &ndl) {
            return Some(i);
        }
        i = i + 1;
    }
    None
}

} // verus!
