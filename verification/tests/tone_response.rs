//! The library's tone stack decisions at work. The elimination and the
//! per-sample arithmetic below are this file's own floating-point copy, so these
//! tests show what the library decides and nothing of the plugin's arithmetic.

use amberhead_or100::dsp::denormal::{flush, sanitize};
use amberhead_or100::dsp::tonestack::{
    select_pivot, stamps, Request, Rotations, Stamp, ToneStack as Decisions, CAPS, INPUTS, NODES,
    NODE_A, NODE_B, NODE_C, NODE_E, NODE_OUT,
};

const OS_RATE: f32 = 384_000.0;

/// Mid-pot rotation the clean channel's fixed mid resistor corresponds to.
const CLEAN_FIXED_MID: f32 = 15_000.0 / 25_000.0;

/// Component values of one tone stack, in ohms and farads.
#[derive(Clone, Copy)]
struct Circuit {
    slope: f64,
    treble_pot: f64,
    bass_pot: f64,
    mid_pot: f64,
    load: f64,
    caps: [f64; CAPS],
}

const DIRTY: Circuit = Circuit {
    slope: 33_000.0,
    treble_pot: 220_000.0,
    bass_pot: 1_000_000.0,
    mid_pot: 25_000.0,
    load: 1_000_000.0,
    caps: [470.0e-12, 22.0e-9, 22.0e-9],
};

const CLEAN: Circuit = Circuit {
    slope: 56_000.0,
    treble_pot: 250_000.0,
    bass_pot: 1_000_000.0,
    mid_pot: 25_000.0,
    load: 1_000_000.0,
    caps: [250.0e-12, 22.0e-9, 22.0e-9],
};

/// A tone stack that solves the network it is told to.
struct ToneStack {
    circuit: Circuit,
    decisions: Decisions,
    stamps: Vec<Stamp>,
    reduced: [[f32; INPUTS]; INPUTS],
    conductance: [f64; CAPS],
    current: [f32; CAPS],
}

impl ToneStack {
    fn new(circuit: Circuit) -> Self {
        ToneStack {
            circuit,
            decisions: Decisions::new(),
            stamps: stamps(),
            reduced: [[0.0; INPUTS]; INPUTS],
            conductance: [0.0; CAPS],
            current: [0.0; CAPS],
        }
    }

    fn prepare(&mut self, sample_rate: f32, treble: f32, bass: f32, mid: f32) {
        self.conductance = self.circuit.caps.map(|cap| cap * 2.0 * sample_rate as f64);
        self.decisions.prepare();
        self.set_controls(treble, bass, mid);
        self.reset();
    }

    fn reset(&mut self) {
        self.current = [0.0; CAPS];
    }

    fn set_controls(&mut self, treble: f32, bass: f32, mid: f32) -> bool {
        match self
            .decisions
            .set_controls(treble.to_bits(), bass.to_bits(), mid.to_bits())
        {
            Request::Refuse => false,
            Request::Keep => true,
            Request::Solve(rotations) => {
                let solvable = self.solve(rotations);
                self.decisions.note_solution(rotations, solvable)
            }
        }
    }

    fn solve(&mut self, rotations: Rotations) -> bool {
        let treble = f32::from_bits(rotations.treble) as f64;
        let bass = f32::from_bits(rotations.bass) as f64;
        let mid = f32::from_bits(rotations.mid) as f64;
        let pot = |fraction: f64, total: f64| 1.0 / (fraction * total).max(1.0);
        let conductances = [
            pot(1.0 - treble, self.circuit.treble_pot),
            pot(treble, self.circuit.treble_pot),
            pot(bass, self.circuit.bass_pot),
            pot(1.0 - mid, self.circuit.mid_pot),
            pot(mid, self.circuit.mid_pot),
            1.0 / self.circuit.load,
            1.0 / self.circuit.slope,
            self.conductance[0],
            self.conductance[1],
            self.conductance[2],
        ];
        let mut matrix = [[0.0f64; NODES + INPUTS]; NODES];
        for stamp in self.stamps.iter() {
            let size = stamp.element.map_or(1.0, |element| conductances[element]);
            matrix[stamp.row][stamp.column] += if stamp.negative { -size } else { size };
        }
        for column in 0..NODES {
            let mut sizes = [0u64; NODES];
            for (size, values) in sizes.iter_mut().zip(matrix.iter()) {
                *size = values[column].abs().to_bits();
            }
            let Some(pivot) = select_pivot(&sizes, column) else {
                return false;
            };
            matrix.swap(column, pivot);
            let inverse = 1.0 / matrix[column][column];
            for value in matrix[column].iter_mut() {
                *value *= inverse;
            }
            let pivot_values = matrix[column];
            for (row, values) in matrix.iter_mut().enumerate() {
                let factor = values[column];
                if row != column {
                    for (value, pivot) in values.iter_mut().zip(pivot_values.iter()) {
                        *value -= factor * pivot;
                    }
                }
            }
        }
        let mut reduced = [[0.0f32; INPUTS]; INPUTS];
        for k in 0..INPUTS {
            let node = |n: usize| matrix[n][NODES + k];
            let direct = if k == 0 { 1.0 } else { 0.0 };
            reduced[0][k] = node(NODE_OUT) as f32;
            reduced[1][k] = (direct - node(NODE_A)) as f32;
            reduced[2][k] = (node(NODE_B) - node(NODE_C)) as f32;
            reduced[3][k] = (node(NODE_B) - node(NODE_E)) as f32;
        }
        if reduced.iter().flatten().any(|value| !value.is_finite()) {
            return false;
        }
        self.reduced = reduced;
        true
    }

    fn process(&mut self, input: f32) -> f32 {
        let [i0, i1, i2] = self.current;
        let apply = |row: &[f32; INPUTS]| row[0] * input + row[1] * i0 + row[2] * i1 + row[3] * i2;
        let output = apply(&self.reduced[0]);
        for cap in 0..CAPS {
            let voltage = apply(&self.reduced[cap + 1]);
            let doubled = (2.0 * self.conductance[cap]) as f32;
            let current = [i0, i1, i2][cap];
            let next = sanitize((doubled * voltage - current).to_bits());
            self.current[cap] = f32::from_bits(flush(next));
        }
        f32::from_bits(sanitize(output.to_bits()))
    }
}

fn dirty_stack(treble: f32, bass: f32, mid: f32) -> ToneStack {
    let mut stack = ToneStack::new(DIRTY);
    stack.prepare(OS_RATE, treble, bass, mid);
    stack
}

/// Steady-state magnitude response at one frequency, in linear gain.
fn response(stack: &mut ToneStack, frequency: f32) -> f32 {
    stack.reset();
    // Let the network settle for at least ten cycles of the lowest
    // frequency of interest before measuring.
    let settle = (OS_RATE / frequency * 12.0) as usize;
    let measure = (OS_RATE / frequency * 8.0) as usize;
    for n in 0..settle {
        let x = (std::f32::consts::TAU * frequency * n as f32 / OS_RATE).sin();
        stack.process(x);
    }
    let mut peak = 0.0f32;
    for n in 0..measure {
        let phase = std::f32::consts::TAU * frequency * (settle + n) as f32 / OS_RATE;
        peak = peak.max(stack.process(phase.sin()).abs());
    }
    peak
}

#[test]
fn network_solves_across_the_whole_control_surface() {
    for t in 0..=4 {
        for b in 0..=4 {
            for m in 0..=4 {
                let controls = (t as f32 / 4.0, b as f32 / 4.0, m as f32 / 4.0);
                let mut stack = ToneStack::new(DIRTY);
                stack.prepare(OS_RATE, controls.0, controls.1, controls.2);
                assert!(
                    stack.reduced.iter().flatten().all(|v| v.is_finite()),
                    "singular at {controls:?}"
                );
            }
        }
    }
}

#[test]
fn output_is_bounded_and_finite_for_an_impulse() {
    let mut stack = dirty_stack(0.5, 0.5, 0.5);
    let first = stack.process(1.0);
    assert!(first.is_finite());
    let mut peak = first.abs();
    for _ in 0..(OS_RATE as usize) {
        let y = stack.process(0.0);
        assert!(y.is_finite());
        peak = peak.max(y.abs());
    }
    assert!(peak <= 1.0, "passive network showed gain: {peak}");
}

#[test]
fn impulse_response_decays_to_zero() {
    let mut stack = dirty_stack(0.5, 0.5, 0.5);
    stack.process(1.0);
    let mut last = 0.0;
    for _ in 0..(OS_RATE as usize) {
        last = stack.process(0.0);
    }
    assert!(last.abs() < 1.0e-6, "residual {last}");
}

#[test]
fn treble_control_only_lifts_the_top_end() {
    let mut low = dirty_stack(0.05, 0.5, 0.5);
    let mut high = dirty_stack(0.95, 0.5, 0.5);
    let treble_low = response(&mut low, 5_000.0);
    let treble_high = response(&mut high, 5_000.0);
    // Full travel is worth about +8.6 dB at 5 kHz on this network.
    assert!(
        treble_high > treble_low * 2.2,
        "treble did nothing: {treble_low} -> {treble_high}"
    );

    let bass_low = response(&mut low, 80.0);
    let bass_high = response(&mut high, 80.0);
    assert!(
        (bass_high - bass_low).abs() < bass_low * 0.5,
        "treble control moved 80 Hz too much: {bass_low} -> {bass_high}"
    );
}

#[test]
fn bass_control_lifts_the_low_end() {
    let mut low = dirty_stack(0.5, 0.02, 0.5);
    let mut high = dirty_stack(0.5, 0.98, 0.5);
    let a = response(&mut low, 80.0);
    let b = response(&mut high, 80.0);
    // Full travel is worth about +6.4 dB at 80 Hz on this network.
    assert!(b > a * 1.8, "bass did nothing: {a} -> {b}");
}

#[test]
fn mid_control_lifts_the_midrange() {
    let mut low = dirty_stack(0.5, 0.5, 0.02);
    let mut high = dirty_stack(0.5, 0.5, 0.98);
    let a = response(&mut low, 500.0);
    let b = response(&mut high, 500.0);
    assert!(b > a * 1.5, "mid did nothing: {a} -> {b}");
}

#[test]
fn the_stack_is_genuinely_interactive() {
    // Moving `Middle` must reload the bass branch and change the low-frequency
    // response. Independent parametric bands would show no change here at all.
    let mut mid_down = dirty_stack(0.5, 0.7, 0.05);
    let mut mid_up = dirty_stack(0.5, 0.7, 0.95);
    let low_a = response(&mut mid_down, 100.0);
    let low_b = response(&mut mid_up, 100.0);
    let relative = ((low_b - low_a) / low_a).abs();
    // The 25 kΩ mid element sits below a bass rheostat an order of
    // magnitude larger, so its influence at 100 Hz is real but modest —
    // measured at 3.9 % across full mid travel.
    assert!(
        relative > 0.025,
        "100 Hz barely moved with Middle: {low_a} -> {low_b}"
    );

    // ...and symmetrically, `Bass` must move the midrange, where the
    // coupling is stronger: measured at 10.9 %.
    let mut bass_down = dirty_stack(0.5, 0.05, 0.5);
    let mut bass_up = dirty_stack(0.5, 0.95, 0.5);
    let mid_a = response(&mut bass_down, 600.0);
    let mid_b = response(&mut bass_up, 600.0);
    assert!(
        ((mid_b - mid_a) / mid_a).abs() > 0.05,
        "600 Hz barely moved with Bass: {mid_a} -> {mid_b}"
    );
}

#[test]
fn stack_has_the_expected_mid_scoop() {
    // Flat-ish settings on a Marshall-derived stack still scoop the mids;
    // that scoop is the whole reason the topology is worth modelling.
    let mut stack = dirty_stack(0.5, 0.5, 0.5);
    let bass = response(&mut stack, 90.0);
    let mid = response(&mut stack, 700.0);
    let treble = response(&mut stack, 5_000.0);
    assert!(mid < bass, "no scoop below: mid {mid} vs bass {bass}");
    assert!(mid < treble, "no scoop above: mid {mid} vs treble {treble}");
}

fn clean_stack(mid: f32) -> ToneStack {
    let mut stack = ToneStack::new(CLEAN);
    stack.prepare(OS_RATE, 0.5, 0.5, mid);
    stack
}

#[test]
fn clean_fixed_mid_resistor_fills_in_the_midrange() {
    // The clean channel has no `Middle` control, so the fixed resistor is
    // what sets its voicing. Compare against a near-shorted mid element,
    // which is what a 2-band stack degenerates to if the value is wrong.
    let mut shorted = clean_stack(0.05);
    let mut fixed = clean_stack(CLEAN_FIXED_MID);

    let shorted_scoop = response(&mut shorted, 700.0) / response(&mut shorted, 90.0);
    let fixed_scoop = response(&mut fixed, 700.0) / response(&mut fixed, 90.0);
    assert!(
        fixed_scoop > shorted_scoop * 1.5,
        "fixed mid did not fill the midrange: {shorted_scoop} -> {fixed_scoop}"
    );
}

#[test]
fn clean_two_band_stack_is_still_interactive() {
    // Losing the `Middle` control must not turn the remaining two into
    // independent bands: `Bass` must still reload the treble branch.
    let mut bass_down = clean_stack(CLEAN_FIXED_MID);
    bass_down.set_controls(0.5, 0.05, CLEAN_FIXED_MID);
    let mut bass_up = clean_stack(CLEAN_FIXED_MID);
    bass_up.set_controls(0.5, 0.95, CLEAN_FIXED_MID);

    let a = response(&mut bass_down, 700.0);
    let b = response(&mut bass_up, 700.0);
    assert!(
        ((b - a) / a).abs() > 0.05,
        "clean stack shows no bass/mid interaction: {a} -> {b}"
    );
}

#[test]
fn the_two_channels_are_voiced_differently() {
    // Different slope resistor, treble cap and mid element: at identical
    // knob positions the two stacks must not produce the same curve.
    let mut clean = clean_stack(0.5);
    let mut dirty = dirty_stack(0.5, 0.5, 0.5);
    let mut differed = false;
    for frequency in [90.0, 200.0, 700.0, 2_000.0, 5_000.0] {
        let a = response(&mut clean, frequency);
        let b = response(&mut dirty, frequency);
        if ((a - b) / b).abs() > 0.05 {
            differed = true;
        }
    }
    assert!(differed, "the two tone stacks produced the same response");
}

#[test]
fn clean_treble_control_retains_authority() {
    let mut low = clean_stack(CLEAN_FIXED_MID);
    low.set_controls(0.05, 0.5, CLEAN_FIXED_MID);
    let mut high = clean_stack(CLEAN_FIXED_MID);
    high.set_controls(0.95, 0.5, CLEAN_FIXED_MID);
    let range = response(&mut high, 5_000.0) / response(&mut low, 5_000.0);
    assert!(range > 1.5, "clean treble control does nothing: {range}");
}

#[test]
fn set_controls_is_a_no_op_when_nothing_changed() {
    let mut stack = dirty_stack(0.5, 0.5, 0.5);
    let before = stack.reduced;
    assert!(stack.set_controls(0.5, 0.5, 0.5));
    assert_eq!(before, stack.reduced);
    assert!(stack.set_controls(0.9, 0.5, 0.5));
    assert_ne!(before, stack.reduced);
}

#[test]
fn extreme_controls_do_not_produce_non_finite_output() {
    for (t, b, m) in [
        (0.0, 0.0, 0.0),
        (1.0, 1.0, 1.0),
        (0.0, 1.0, 0.0),
        (1.0, 0.0, 1.0),
    ] {
        let mut stack = dirty_stack(t, b, m);
        for n in 0..10_000 {
            let x = (std::f32::consts::TAU * 100.0 * n as f32 / OS_RATE).sin() * 40.0;
            let y = stack.process(x);
            assert!(y.is_finite(), "({t},{b},{m}) produced {y}");
        }
    }
}
