use amberhead_or100::dsp::cabinet::IR_LENGTH;
use amberhead_or100::dsp::engine::{
    audible, lamp_brightness, mute, pending_impulse_response, rail_goal, AmpEngine, Audible,
    Channel, ControlClock, Headings, Lamp, PendingIr, PowerState, SampleControls, SampleStart,
    Weights, CONTROL_INTERVAL, GAIN_DEFAULT, KNOB_CENTRE, PILOT_BRIGHTNESS,
};
use amberhead_or100::dsp::filters::{Direction, ONE};
use amberhead_or100::dsp::power::PowerMode;
use amberhead_or100::dsp::tonestack::{Request, Rotations};

/// Latency of the oversampling cascade, in host samples.
const OVERSAMPLING: u32 = 56;

fn prepared_with(controls: &SampleControls) -> AmpEngine {
    let mut engine = AmpEngine::new();
    engine.begin_prepare(vec![ONE; IR_LENGTH], controls);
    assert!(engine.finish_prepare(true));
    engine
}

fn prepared() -> AmpEngine {
    prepared_with(&SampleControls::default())
}

/// The pattern a step in this direction reaches for.
fn stepped(from: u32, direction: Direction, step: f32) -> u32 {
    let from = f32::from_bits(from);
    let moved = match direction {
        Direction::Up => from + step,
        Direction::Down => from - step,
        Direction::Hold => from,
    };
    moved.to_bits()
}

/// Moves every weight by one step.
fn advance(engine: &mut AmpEngine, power: PowerState, step: f32) -> Weights {
    let weights = engine.weights();
    let headings = engine.headings(power);
    engine.advance(
        power,
        Weights {
            channel: stepped(weights.channel, headings.channel, step),
            gain_boost: stepped(weights.gain_boost, headings.gain_boost, step),
            global_boost: stepped(weights.global_boost, headings.global_boost, step),
            rail: stepped(weights.rail, headings.rail, step),
        },
    )
}

fn rotations(treble: f32, bass: f32, mid: f32) -> Rotations {
    Rotations {
        treble: treble.to_bits(),
        bass: bass.to_bits(),
        mid: mid.to_bits(),
    }
}

#[test]
fn latency_is_the_sum_of_its_parts() {
    // 56 samples of oversampling cascade + 64 samples of convolution.
    assert_eq!(prepared().latency_samples(OVERSAMPLING), 56 + 64);
}

#[test]
fn latency_is_reported_consistently_across_sample_rates() {
    // The oversampling cascade and the convolution partition are both
    // sample-count based, so the reported latency must not vary with rate.
    let controls = SampleControls::default();
    let mut reference = None;
    for rate in [44_100.0f32, 48_000.0, 96_000.0, 192_000.0] {
        // A response that rings for as long at every rate.
        let response: Vec<u32> = (0..IR_LENGTH)
            .map(|n| (-(n as f32) / (0.01 * rate)).exp().to_bits())
            .collect();
        let mut engine = AmpEngine::new();
        engine.begin_prepare(response, &controls);
        assert!(engine.finish_prepare(true));
        let latency = engine.latency_samples(OVERSAMPLING);
        match reference {
            None => reference = Some(latency),
            Some(expected) => assert_eq!(latency, expected, "latency moved at {rate} Hz"),
        }
    }
    assert_eq!(reference, Some(120));
}

#[test]
fn unprepared_engine_is_silent_rather_than_panicking() {
    let mut engine = AmpEngine::new();
    for _ in 0..128 {
        assert_eq!(engine.begin_sample(), SampleStart::Silence);
    }
}

#[test]
fn controls_are_applied_on_the_first_sample_and_then_regularly() {
    let mut engine = prepared();
    for n in 0..200u32 {
        let expected = if n % CONTROL_INTERVAL == 0 {
            SampleStart::ApplyControls
        } else {
            SampleStart::Process
        };
        assert_eq!(engine.begin_sample(), expected, "sample {n}");
    }
    engine.reset();
    assert_eq!(engine.begin_sample(), SampleStart::ApplyControls);

    let mut clock = ControlClock::new();
    let due = (0..65).filter(|_| clock.tick()).count();
    assert_eq!(due, 3);
}

#[test]
fn an_engine_runs_without_its_cabinet() {
    let mut engine = AmpEngine::new();
    engine.begin_prepare(vec![ONE; IR_LENGTH], &SampleControls::default());
    assert!(!engine.finish_prepare(false));
    assert_eq!(engine.begin_sample(), SampleStart::ApplyControls);
    for n in 0..128u32 {
        let (output, due) = engine.process_cabinet(n + 1, true);
        assert_eq!(output, (n + 1).saturating_sub(64));
        assert!(!due);
    }
    assert!(!engine.load_impulse_response(&[ONE], &mut [0; IR_LENGTH]));
    assert!(!engine.restore_default_impulse_response());
}

#[test]
fn a_loaded_response_is_in_force_until_the_default_returns() {
    let mut engine = prepared();
    let mut fitted = [7; IR_LENGTH];
    assert!(engine.load_impulse_response(&[1, 2, 3], &mut fitted));
    assert_eq!(fitted[..4], [1, 2, 3, 0]);
    assert!(engine.commit_impulse_response(Some(&fitted)));
    assert_eq!(engine.impulse_response(), fitted);
    // A response that could not be levelled leaves the one in force alone.
    assert!(!engine.commit_impulse_response(None));
    assert_eq!(engine.impulse_response(), fitted);
    engine.reset();
    assert_eq!(engine.impulse_response(), fitted);
    assert!(engine.restore_default_impulse_response());
    assert_eq!(engine.impulse_response(), [ONE; IR_LENGTH]);
}

#[test]
fn an_unprepared_engine_takes_no_response() {
    let mut engine = AmpEngine::default();
    let mut fitted = [7; IR_LENGTH];
    assert!(!engine.load_impulse_response(&[ONE], &mut fitted));
    assert_eq!(fitted, [7; IR_LENGTH]);
    assert!(!engine.restore_default_impulse_response());
}

#[test]
fn the_lamp_follows_the_power_switch() {
    assert_eq!(lamp_brightness(PowerState::Off), Lamp::Dark);
    assert_eq!(lamp_brightness(PowerState::Standby), Lamp::Pilot);
    assert_eq!(lamp_brightness(PowerState::On), Lamp::Rail);
    assert_eq!(f32::from_bits(PILOT_BRIGHTNESS), 0.55);
}

#[test]
fn off_and_standby_end_in_silence() {
    for power in [PowerState::Off, PowerState::Standby] {
        assert_eq!(rail_goal(power), 0);
        assert_eq!(mute(power, rail_goal(power)), 0);
        assert_eq!(mute(power, 0.25f32.to_bits()), 0.25f32.to_bits());
    }
    assert_eq!(rail_goal(PowerState::On), ONE);
    assert_eq!(mute(PowerState::On, 0), ONE);
}

#[test]
fn an_empty_payload_asks_for_the_built_in_cabinet() {
    assert_eq!(pending_impulse_response(None), PendingIr::Nothing);
    assert_eq!(pending_impulse_response(Some(0)), PendingIr::RestoreDefault);
    assert_eq!(pending_impulse_response(Some(9)), PendingIr::Load(9));
}

#[test]
fn controls_start_at_the_default_patch() {
    let controls = SampleControls::default();
    assert_eq!(f32::from_bits(KNOB_CENTRE), 5.0);
    assert_eq!(f32::from_bits(GAIN_DEFAULT), 6.5);
    assert_eq!(controls.channel, Channel::Dirty);
    assert_eq!(controls.dirty_gain, GAIN_DEFAULT);
    assert_eq!(controls.clean_volume, KNOB_CENTRE);
    assert_eq!(controls.power, PowerState::On);
    assert_eq!(controls.output_power, PowerMode::Watt100);
    assert!(controls.cab_enabled && !controls.gain_boost && !controls.global_boost);
}

#[test]
fn an_engine_starts_with_its_switches_settled() {
    let engine = prepared();
    let settled = Weights {
        channel: ONE,
        gain_boost: 0,
        global_boost: 0,
        rail: ONE,
    };
    assert_eq!(engine.weights(), settled);
    assert_eq!(
        engine.headings(PowerState::On),
        Headings {
            channel: Direction::Hold,
            gain_boost: Direction::Hold,
            global_boost: Direction::Hold,
            rail: Direction::Hold,
        }
    );
    assert_eq!(engine.mode(), PowerMode::Watt100);
    // Whatever step is tried, a settled switch stays.
    let mut engine = engine;
    let elsewhere = Weights {
        channel: 7,
        gain_boost: 7,
        global_boost: 7,
        rail: 7,
    };
    assert_eq!(engine.advance(PowerState::On, elsewhere), settled);

    let standby = SampleControls {
        channel: Channel::Clean,
        gain_boost: true,
        power: PowerState::Standby,
        output_power: PowerMode::Watt30,
        ..SampleControls::default()
    };
    let engine = prepared_with(&standby);
    assert_eq!(
        engine.weights(),
        Weights {
            channel: 0,
            gain_boost: ONE,
            global_boost: 0,
            rail: 0,
        }
    );
    assert_eq!(engine.mode(), PowerMode::Watt30);
}

#[test]
fn switches_crossfade_and_the_rail_bleeds_away() {
    let mut engine = prepared();
    let controls = SampleControls {
        channel: Channel::Clean,
        global_boost: true,
        power: PowerState::Off,
        output_power: PowerMode::Watt50,
        ..SampleControls::default()
    };
    engine.update_control_rate(&controls, rotations(0.5, 0.5, 0.6), rotations(0.5, 0.5, 0.5));
    assert_eq!(engine.mode(), PowerMode::Watt50);
    assert_eq!(engine.weights().channel, ONE);
    assert_eq!(engine.headings(controls.power).channel, Direction::Down);
    assert_eq!(engine.headings(controls.power).global_boost, Direction::Up);
    assert_eq!(engine.headings(controls.power).rail, Direction::Down);

    let first = advance(&mut engine, controls.power, 0.3);
    assert_eq!(f32::from_bits(first.channel), 0.7);
    assert_eq!(f32::from_bits(first.global_boost), 0.3);
    let mut last = first;
    for _ in 0..5 {
        last = advance(&mut engine, controls.power, 0.3);
    }
    assert_eq!(
        last,
        Weights {
            channel: 0,
            gain_boost: 0,
            global_boost: ONE,
            rail: 0,
        }
    );
    assert_eq!(mute(controls.power, last.rail), 0);
    // A reset does not move the switches.
    engine.reset();
    assert_eq!(engine.weights(), last);
}

#[test]
fn tone_stacks_are_solved_once_per_rotation() {
    let mut engine = prepared();
    let controls = SampleControls::default();
    let clean = rotations(0.5, 0.5, 0.6);
    let dirty = rotations(0.2, 0.3, 0.4);
    assert_eq!(
        engine.update_control_rate(&controls, clean, dirty),
        (Request::Solve(clean), Request::Solve(dirty))
    );
    assert!(engine.note_clean_solution(clean, true));
    assert!(!engine.note_dirty_solution(dirty, false));
    assert_eq!(
        engine.update_control_rate(&controls, clean, dirty),
        (Request::Keep, Request::Solve(dirty))
    );
    assert!(engine.note_dirty_solution(dirty, true));
    assert_eq!(
        engine.update_control_rate(&controls, clean, dirty),
        (Request::Keep, Request::Keep)
    );
}

#[test]
fn channels_that_are_not_heard_are_left_out() {
    let bits = |x: f32| x.to_bits();
    let both = Audible {
        clean: true,
        dirty: true,
    };
    assert_eq!(audible(bits(0.5)), both);
    assert_eq!(audible(bits(f32::MIN_POSITIVE)), both);
    assert_eq!(
        audible(bits(0.0)),
        Audible {
            clean: true,
            dirty: false
        }
    );
    assert_eq!(
        audible(bits(1.0)),
        Audible {
            clean: false,
            dirty: true
        }
    );
}
