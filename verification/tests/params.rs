use amberhead_or100::dsp::engine::{Channel, PowerState, SampleControls};
use amberhead_or100::dsp::power::PowerMode;
use amberhead_or100::params::{
    all_parameters, fill_smoothed, ChannelParam, Knobs, Or100Params, OutputPowerParam, Parameter,
    PowerParam, TONE_SMOOTHING_MS, VOLUME_SMOOTHING_MS,
};

fn value(bits: u32) -> f32 {
    f32::from_bits(bits)
}

#[test]
fn defaults_match_the_specification_table() {
    let params = Or100Params::default();
    assert_eq!(params.channel, ChannelParam::Dirty);
    assert_eq!(value(params.knobs.clean_volume), 5.0);
    assert_eq!(value(params.knobs.clean_bass), 5.0);
    assert_eq!(value(params.knobs.clean_treble), 5.0);
    assert_eq!(value(params.knobs.dirty_gain), 6.5);
    assert_eq!(value(params.knobs.dirty_bass), 5.0);
    assert_eq!(value(params.knobs.dirty_middle), 5.0);
    assert_eq!(value(params.knobs.dirty_treble), 5.0);
    assert_eq!(value(params.knobs.dirty_volume), 5.0);
    assert!(!params.gain_boost);
    assert!(!params.global_boost);
    assert_eq!(params.power_switch, PowerParam::On);
    assert_eq!(params.output_power, OutputPowerParam::Watt100);
    assert!(params.cab_enabled);
}

#[test]
fn the_schema_declares_exactly_fourteen_parameters() {
    assert_eq!(all_parameters().len(), 14);
}

#[test]
fn parameter_ids_are_unique_and_match_the_specification() {
    let all = all_parameters();
    let mut ids: Vec<&str> = all.iter().map(|parameter| parameter.id()).collect();
    ids.sort_unstable();
    let mut expected = vec![
        "channel",
        "clean_volume",
        "clean_bass",
        "clean_treble",
        "dirty_gain",
        "dirty_bass",
        "dirty_middle",
        "dirty_treble",
        "dirty_volume",
        "gain_boost",
        "global_boost",
        "power_switch",
        "output_power",
        "cab_enabled",
    ];
    expected.sort_unstable();
    assert_eq!(ids, expected);
}

#[test]
fn discrete_switches_are_stepped_not_continuous() {
    assert_eq!(Parameter::Channel.step_count(), Some(1));
    assert_eq!(Parameter::GainBoost.step_count(), Some(1));
    assert_eq!(Parameter::GlobalBoost.step_count(), Some(1));
    assert_eq!(Parameter::CabEnabled.step_count(), Some(1));
    assert_eq!(Parameter::PowerSwitch.step_count(), Some(2));
    assert_eq!(Parameter::OutputPower.step_count(), Some(3));
    assert_eq!(Parameter::DirtyGain.step_count(), None);
}

#[test]
fn knobs_are_smoothed_and_switches_are_not() {
    assert_eq!((VOLUME_SMOOTHING_MS, TONE_SMOOTHING_MS), (15, 20));
    for parameter in all_parameters() {
        let expected = match parameter {
            Parameter::CleanVolume | Parameter::DirtyGain | Parameter::DirtyVolume => Some(15),
            _ if parameter.step_count().is_none() => Some(20),
            _ => None,
        };
        assert_eq!(parameter.smoothing_ms(), expected, "{parameter:?}");
    }
}

#[test]
fn dsp_conversions_cover_every_variant() {
    assert_eq!(Channel::from(ChannelParam::Clean), Channel::Clean);
    assert_eq!(Channel::from(ChannelParam::Dirty), Channel::Dirty);
    assert_eq!(PowerState::from(PowerParam::Off), PowerState::Off);
    assert_eq!(PowerState::from(PowerParam::Standby), PowerState::Standby);
    assert_eq!(PowerState::from(PowerParam::On), PowerState::On);
    assert_eq!(
        PowerMode::from(OutputPowerParam::Watt100),
        PowerMode::Watt100
    );
    assert_eq!(PowerMode::from(OutputPowerParam::Watt70), PowerMode::Watt70);
    assert_eq!(PowerMode::from(OutputPowerParam::Watt50), PowerMode::Watt50);
    assert_eq!(PowerMode::from(OutputPowerParam::Watt30), PowerMode::Watt30);
}

#[test]
fn settled_controls_report_the_current_parameter_values() {
    let params = Or100Params::default();
    let controls = params.settled_controls();
    assert_eq!(value(controls.dirty_gain), 6.5);
    assert_eq!(controls.channel, Channel::Dirty);
    assert_eq!(controls.output_power, PowerMode::Watt100);
    assert!(controls.cab_enabled);
}

#[test]
fn block_controls_take_switches_and_leave_knobs_at_rest() {
    let mut params = Or100Params::default();
    params.knobs.dirty_gain = 9.0f32.to_bits();
    params.channel = ChannelParam::Clean;
    params.gain_boost = true;
    params.power_switch = PowerParam::Standby;
    params.output_power = OutputPowerParam::Watt30;
    params.cab_enabled = false;
    let controls = params.block_controls();
    assert_eq!(controls.channel, Channel::Clean);
    assert!(controls.gain_boost);
    assert!(!controls.global_boost);
    assert_eq!(controls.power, PowerState::Standby);
    assert_eq!(controls.output_power, PowerMode::Watt30);
    assert!(!controls.cab_enabled);
    assert_eq!(value(controls.dirty_gain), 0.0);
    assert_eq!(value(params.settled_controls().dirty_gain), 9.0);
}

#[test]
fn smoothed_knobs_go_to_their_own_controls() {
    let mut controls = SampleControls::default();
    let knobs = Knobs {
        clean_volume: 1,
        clean_bass: 2,
        clean_treble: 3,
        dirty_gain: 4,
        dirty_bass: 5,
        dirty_middle: 6,
        dirty_treble: 7,
        dirty_volume: 8,
    };
    fill_smoothed(&mut controls, &knobs);
    assert_eq!(
        (
            controls.clean_volume,
            controls.clean_bass,
            controls.clean_treble,
            controls.dirty_gain,
            controls.dirty_bass,
            controls.dirty_middle,
            controls.dirty_treble,
            controls.dirty_volume,
        ),
        (1, 2, 3, 4, 5, 6, 7, 8)
    );
    assert_eq!(controls.channel, Channel::Dirty);
    assert!(controls.cab_enabled);
}
