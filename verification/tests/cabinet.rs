use std::sync::Arc;

use amberhead_or100::dsp::cabinet::{
    Cabinet, FFT_SIZE, IR_LENGTH, PARTITION, PARTITIONS, SPECTRUM_BINS,
};
use realfft::num_complex::Complex;
use realfft::{ComplexToReal, RealFftPlanner, RealToComplex};

const FS: f32 = 48_000.0;

fn values(taps: &[u32]) -> Vec<f32> {
    taps.iter().map(|tap| f32::from_bits(*tap)).collect()
}

fn patterns(samples: &[f32]) -> Vec<u32> {
    samples.iter().map(|sample| sample.to_bits()).collect()
}

/// Root mean square of the magnitude between 100 Hz and 1 kHz.
fn band_gain(ir: &[f32]) -> f32 {
    let mut sum = 0.0f64;
    for point in 0..33 {
        let frequency = 100.0 * 10.0f64.powf(point as f64 / 32.0);
        let step = -std::f64::consts::TAU * frequency / FS as f64;
        let (mut real, mut imag) = (0.0f64, 0.0f64);
        for (index, tap) in ir.iter().enumerate() {
            let phase = step * index as f64;
            real += *tap as f64 * phase.cos();
            imag += *tap as f64 * phase.sin();
        }
        sum += real * real + imag * imag;
    }
    (sum / 33.0).sqrt() as f32
}

/// Scales a response to unity in the reference band, unless that takes more
/// than 40 dB. This file's own floating-point copy: it shows nothing of the
/// plugin's levelling.
fn levelled(ir: &[f32]) -> Option<Vec<f32>> {
    let scale = 1.0 / band_gain(ir);
    if !(0.01..=100.0).contains(&scale) {
        return None;
    }
    Some(ir.iter().map(|tap| tap * scale).collect())
}

/// A damped resonance, standing in for a synthesised cabinet.
fn default_response() -> Vec<f32> {
    let response: Vec<f32> = (0..IR_LENGTH)
        .map(|n| 0.995f32.powi(n as i32) * (1.0 + (n as f32 * 0.05).sin()))
        .collect();
    levelled(&response).expect("the default response has a level")
}

/// A cabinet with the transforms it asks for. The transforms and products are
/// this file's own floating-point copy: tests through it show the library's
/// windows, slots and delays, and nothing of the plugin's arithmetic.
struct Convolver {
    cabinet: Cabinet,
    forward: Arc<dyn RealToComplex<f32>>,
    inverse: Arc<dyn ComplexToReal<f32>>,
    frames: Vec<Vec<Complex<f32>>>,
    ring: Vec<Vec<Complex<f32>>>,
}

impl Convolver {
    fn new() -> Self {
        let mut planner = RealFftPlanner::<f32>::new();
        let nothing = vec![vec![Complex::new(0.0, 0.0); SPECTRUM_BINS]; PARTITIONS];
        Convolver {
            cabinet: Cabinet::new(),
            forward: planner.plan_fft_forward(FFT_SIZE),
            inverse: planner.plan_fft_inverse(FFT_SIZE),
            frames: nothing.clone(),
            ring: nothing,
        }
    }

    fn prepared() -> Self {
        let mut convolver = Convolver::new();
        convolver
            .cabinet
            .begin_prepare(patterns(&default_response()));
        convolver.repartition();
        assert!(convolver.cabinet.finish_prepare(true));
        convolver
    }

    fn transform(&self, samples: &[u32]) -> Vec<Complex<f32>> {
        let mut time = values(samples);
        let mut spectrum = self.forward.make_output_vec();
        self.forward
            .process(&mut time, &mut spectrum)
            .expect("forward transform failed");
        spectrum
    }

    fn repartition(&mut self) {
        let mut frame = vec![0; FFT_SIZE];
        for partition in 0..PARTITIONS {
            self.cabinet.partition_frame(partition, &mut frame);
            self.frames[partition] = self.transform(&frame);
        }
    }

    fn load_ir(&mut self, taps: &[f32]) -> bool {
        let mut fitted = vec![0; IR_LENGTH];
        if !self.cabinet.load_ir(&patterns(taps), &mut fitted) {
            return false;
        }
        let level = levelled(&values(&fitted)).map(|taps| patterns(&taps));
        let committed = self.cabinet.commit_ir(level.as_deref());
        self.repartition();
        committed
    }

    fn restore_default_ir(&mut self) -> bool {
        let restored = self.cabinet.restore_default_ir();
        self.repartition();
        restored
    }

    fn reset(&mut self) {
        self.cabinet.reset();
        for spectrum in self.ring.iter_mut() {
            spectrum.fill(Complex::new(0.0, 0.0));
        }
    }

    fn process(&mut self, input: f32, enabled: bool) -> f32 {
        let (output, due) = self.cabinet.process(input.to_bits(), enabled);
        if due {
            let newest = self.cabinet.slot(0);
            self.ring[newest] = self.transform(self.cabinet.window());
            let mut sum = vec![Complex::new(0.0, 0.0); SPECTRUM_BINS];
            for partition in 0..PARTITIONS {
                let spectrum = &self.ring[self.cabinet.slot(partition)];
                for (bin, value) in sum.iter_mut().enumerate() {
                    *value += self.frames[partition][bin] * spectrum[bin];
                }
            }
            let mut time = self.inverse.make_output_vec();
            self.inverse
                .process(&mut sum, &mut time)
                .expect("inverse transform failed");
            let block: Vec<f32> = time[PARTITION..]
                .iter()
                .map(|sample| sample / FFT_SIZE as f32)
                .collect();
            self.cabinet.finish_block(&patterns(&block));
        }
        f32::from_bits(output)
    }

    fn impulse_response(&self) -> Vec<f32> {
        values(self.cabinet.impulse_response())
    }

    /// Response to a unit impulse.
    fn impulse(&mut self, length: usize) -> Vec<f32> {
        (0..length)
            .map(|n| self.process(if n == 0 { 1.0 } else { 0.0 }, true))
            .collect()
    }
}

#[test]
fn convolver_reproduces_the_impulse_response() {
    // The defining test: feeding a unit impulse must return the response
    // itself, delayed by exactly PARTITION samples.
    let mut cabinet = Convolver::prepared();
    let reference = cabinet.impulse_response();
    let output = cabinet.impulse(IR_LENGTH + 2 * PARTITION);
    let mut worst = 0.0f32;
    for (index, expected) in reference.iter().enumerate() {
        let actual = output.get(index + PARTITION).copied().unwrap_or(0.0);
        worst = worst.max((actual - expected).abs());
    }
    assert!(worst < 1.0e-5, "convolution error {worst}");
}

#[test]
fn convolver_latency_matches_the_declared_value() {
    let mut cabinet = Convolver::prepared();
    let output = cabinet.impulse(4 * PARTITION + 1);
    let first_nonzero = output
        .iter()
        .position(|sample| sample.abs() > 1.0e-6)
        .unwrap_or(usize::MAX);
    assert_eq!(first_nonzero, Cabinet::latency_samples() as usize);
}

#[test]
fn bypass_is_latency_matched_and_transparent() {
    let mut cabinet = Convolver::prepared();
    let mut input = Vec::new();
    let mut output = Vec::new();
    for n in 0..1_024 {
        let x = (std::f32::consts::TAU * 220.0 * n as f32 / FS).sin();
        input.push(x);
        output.push(cabinet.process(x, false));
    }
    let latency = Cabinet::latency_samples() as usize;
    for n in latency..1_024 {
        let expected = input.get(n - latency).copied().unwrap_or(0.0);
        let actual = output.get(n).copied().unwrap_or(0.0);
        assert!(
            (expected - actual).abs() < 1.0e-6,
            "bypass altered sample {n}: {expected} vs {actual}"
        );
    }
}

#[test]
fn unprepared_cabinet_passes_dry_signal_without_panicking() {
    let mut cabinet = Convolver::new();
    for n in 0..256 {
        let x = (n as f32 * 0.01).sin();
        let y = cabinet.process(x, true);
        assert!(y.is_finite());
    }
}

#[test]
fn reset_clears_the_tail() {
    let mut cabinet = Convolver::prepared();
    for _ in 0..PARTITION * 4 {
        cabinet.process(1.0, true);
    }
    cabinet.reset();
    let mut peak = 0.0f32;
    for _ in 0..PARTITION * 2 {
        peak = peak.max(cabinet.process(0.0, true).abs());
    }
    assert!(peak < 1.0e-6, "tail survived reset: {peak}");
}

#[test]
fn output_stays_finite_for_extreme_input() {
    let mut cabinet = Convolver::prepared();
    for _ in 0..PARTITION * 4 {
        let y = cabinet.process(1.0e6, true);
        assert!(y.is_finite());
    }
}

#[test]
fn loading_an_ir_replaces_the_convolved_response() {
    let mut cabinet = Convolver::prepared();

    // A one-pole lowpass, obviously different from the default cab and trivially
    // checkable in the output.
    let mut taps = vec![0.0f32; IR_LENGTH];
    let mut value = 1.0f32;
    for tap in taps.iter_mut() {
        *tap = value;
        value *= 0.98;
    }
    assert!(cabinet.load_ir(&taps), "load_ir refused a valid response");

    // The convolver now reproduces the loaded response, normalised.
    let loaded = cabinet.impulse_response();
    assert_eq!(loaded.len(), IR_LENGTH);
    let db = 20.0 * band_gain(&loaded).log10();
    assert!(db.abs() < 0.01, "loaded IR not levelled: {db} dB");

    let output = cabinet.impulse(IR_LENGTH + 2 * PARTITION);
    let mut worst = 0.0f32;
    for (index, expected) in loaded.iter().enumerate() {
        let actual = output.get(index + PARTITION).copied().unwrap_or(0.0);
        worst = worst.max((actual - expected).abs());
    }
    assert!(worst < 1.0e-5, "loaded convolution error {worst}");
}

#[test]
fn restoring_the_default_recovers_the_synthesised_response() {
    let mut cabinet = Convolver::prepared();
    let original = cabinet.impulse_response();

    let taps = vec![1.0f32; 512];
    assert!(cabinet.load_ir(&taps));
    assert_ne!(cabinet.impulse_response(), original);

    assert!(cabinet.restore_default_ir());
    assert_eq!(cabinet.impulse_response(), original);
}

#[test]
fn loading_rejects_bad_input_and_keeps_playing() {
    let mut cabinet = Convolver::prepared();
    let original = cabinet.impulse_response();

    assert!(!cabinet.load_ir(&[]), "an empty response was accepted");
    assert!(
        !cabinet.load_ir(&[1.0, f32::NAN, 0.5]),
        "a non-finite response was accepted"
    );
    assert!(
        !cabinet.load_ir(&[0.0; 256]),
        "a silent response was accepted"
    );
    assert_eq!(
        cabinet.impulse_response(),
        original,
        "a rejected load disturbed the running response"
    );

    // And an unprepared cabinet refuses rather than panicking.
    let mut fresh = Convolver::new();
    assert!(!fresh.load_ir(&[1.0, 0.5]));
    assert!(!fresh.restore_default_ir());
}

#[test]
fn a_response_that_cannot_be_levelled_leaves_the_loaded_one() {
    let mut cabinet = Convolver::prepared();
    assert!(cabinet.load_ir(&[1.0, 0.5, 0.25]));
    let loaded = cabinet.impulse_response();
    assert!(!cabinet.load_ir(&[1.0e-6]));
    assert_eq!(cabinet.impulse_response(), loaded);
}

#[test]
fn loading_shorter_and_longer_responses_both_work() {
    let mut cabinet = Convolver::prepared();

    // Shorter than IR_LENGTH: the remainder must be zero-filled, not left
    // holding the previous response.
    let short = vec![1.0f32; 8];
    assert!(cabinet.load_ir(&short));
    assert!(
        cabinet
            .impulse_response()
            .iter()
            .skip(8)
            .all(|tap| *tap == 0.0),
        "the tail of the previous IR survived a shorter load"
    );

    // Longer than IR_LENGTH: the excess is dropped, not wrapped.
    let mut long = vec![0.0f32; IR_LENGTH * 2];
    for (index, tap) in long.iter_mut().enumerate() {
        *tap = if index < IR_LENGTH { 1.0 } else { 9.0 };
    }
    assert!(cabinet.load_ir(&long));
    let peak = cabinet
        .impulse_response()
        .iter()
        .fold(0.0f32, |peak, tap| peak.max(tap.abs()));
    let smallest = cabinet
        .impulse_response()
        .iter()
        .fold(f32::INFINITY, |low, tap| low.min(tap.abs()));
    assert!(
        (peak - smallest).abs() < 1.0e-6,
        "taps past IR_LENGTH leaked in: {smallest} .. {peak}"
    );
}

#[test]
fn a_block_is_due_every_partition() {
    let mut convolver = Convolver::prepared();
    for n in 1..=4 * PARTITION {
        let (_, due) = convolver.cabinet.process(n as u32, true);
        assert_eq!(due, n % PARTITION == 0);
        if due {
            let window = convolver.cabinet.window();
            assert_eq!(window[FFT_SIZE - 1], n as u32);
            assert_eq!(window[0], (n as u32 + 1).saturating_sub(FFT_SIZE as u32));
            assert_eq!(
                convolver.cabinet.slot(0),
                (PARTITIONS - n / PARTITION % PARTITIONS) % PARTITIONS
            );
            assert_eq!(
                convolver.cabinet.slot(PARTITIONS - 1),
                (convolver.cabinet.slot(0) + PARTITIONS - 1) % PARTITIONS
            );
        }
    }
}

#[test]
fn frames_are_padded_with_silence() {
    let convolver = Convolver::prepared();
    let response = convolver.cabinet.impulse_response();
    let mut frame = vec![9; FFT_SIZE];
    convolver.cabinet.partition_frame(3, &mut frame);
    assert_eq!(frame[..PARTITION], response[3 * PARTITION..4 * PARTITION]);
    assert!(frame[PARTITION..].iter().all(|sample| *sample == 0));
}
