//! Parameter schema: the fourteen automatable parameters, what the host calls
//! them, and how their values become control values.

use vstd::prelude::*;
use vstd::std_specs::convert::FromSpecImpl;

use crate::dsp::engine;
use crate::dsp::engine::{Channel, PowerState, SampleControls, GAIN_DEFAULT, KNOB_CENTRE};
use crate::dsp::power::PowerMode;

verus! {

/// Smoothing time for the volume and gain controls, in ms.
pub const VOLUME_SMOOTHING_MS: u32 = 15;

/// Smoothing time for the tone controls, in ms.
pub const TONE_SMOOTHING_MS: u32 = 20;

/// Preamp channel selection.
#[derive(Debug, Clone, Copy, PartialEq, Eq, Structural)]
pub enum ChannelParam {
    /// Single-stage clean channel with the 2-band tone stack.
    Clean,
    /// Cascaded gain channel with the 3-band tone stack.
    Dirty,
}

/// Power / standby switch position.
#[derive(Debug, Clone, Copy, PartialEq, Eq, Structural)]
pub enum PowerParam {
    /// Mains off.
    Off,
    /// Heaters on, `B+` disconnected.
    Standby,
    /// Fully operational.
    On,
}

/// Output wattage mode.
#[derive(Debug, Clone, Copy, PartialEq, Eq, Structural)]
pub enum OutputPowerParam {
    /// 4 tubes, 480 V rail.
    Watt100,
    /// 4 tubes, 340 V rail.
    Watt70,
    /// 2 tubes, 480 V rail.
    Watt50,
    /// 2 tubes, 340 V rail.
    Watt30,
}

/// The channel a parameter value selects.
pub open spec fn channel_of(value: ChannelParam) -> Channel {
    match value {
        ChannelParam::Clean => Channel::Clean,
        ChannelParam::Dirty => Channel::Dirty,
    }
}

impl FromSpecImpl<ChannelParam> for Channel {
    open spec fn obeys_from_spec() -> bool {
        true
    }

    open spec fn from_spec(value: ChannelParam) -> Channel {
        channel_of(value)
    }
}

impl From<ChannelParam> for Channel {
    fn from(value: ChannelParam) -> (channel: Channel) {
        match value {
            ChannelParam::Clean => Channel::Clean,
            ChannelParam::Dirty => Channel::Dirty,
        }
    }
}

/// The switch position a parameter value selects.
pub open spec fn power_of(value: PowerParam) -> PowerState {
    match value {
        PowerParam::Off => PowerState::Off,
        PowerParam::Standby => PowerState::Standby,
        PowerParam::On => PowerState::On,
    }
}

impl FromSpecImpl<PowerParam> for PowerState {
    open spec fn obeys_from_spec() -> bool {
        true
    }

    open spec fn from_spec(value: PowerParam) -> PowerState {
        power_of(value)
    }
}

impl From<PowerParam> for PowerState {
    fn from(value: PowerParam) -> (power: PowerState) {
        match value {
            PowerParam::Off => PowerState::Off,
            PowerParam::Standby => PowerState::Standby,
            PowerParam::On => PowerState::On,
        }
    }
}

/// The wattage mode a parameter value selects.
pub open spec fn mode_of(value: OutputPowerParam) -> PowerMode {
    match value {
        OutputPowerParam::Watt100 => PowerMode::Watt100,
        OutputPowerParam::Watt70 => PowerMode::Watt70,
        OutputPowerParam::Watt50 => PowerMode::Watt50,
        OutputPowerParam::Watt30 => PowerMode::Watt30,
    }
}

impl FromSpecImpl<OutputPowerParam> for PowerMode {
    open spec fn obeys_from_spec() -> bool {
        true
    }

    open spec fn from_spec(value: OutputPowerParam) -> PowerMode {
        mode_of(value)
    }
}

impl From<OutputPowerParam> for PowerMode {
    fn from(value: OutputPowerParam) -> (mode: PowerMode) {
        match value {
            OutputPowerParam::Watt100 => PowerMode::Watt100,
            OutputPowerParam::Watt70 => PowerMode::Watt70,
            OutputPowerParam::Watt50 => PowerMode::Watt50,
            OutputPowerParam::Watt30 => PowerMode::Watt30,
        }
    }
}

/// Readings of the eight knobs, single-precision patterns in `0.0..=10.0`.
#[derive(Debug, Clone, Copy, PartialEq, Eq, Structural)]
pub struct Knobs {
    /// Clean volume.
    pub clean_volume: u32,
    /// Clean bass.
    pub clean_bass: u32,
    /// Clean treble.
    pub clean_treble: u32,
    /// Dirty gain.
    pub dirty_gain: u32,
    /// Dirty bass.
    pub dirty_bass: u32,
    /// Dirty middle.
    pub dirty_middle: u32,
    /// Dirty treble.
    pub dirty_treble: u32,
    /// Dirty volume.
    pub dirty_volume: u32,
}

/// Values of the fourteen parameters.
#[derive(Debug, Clone, Copy, PartialEq, Eq, Structural)]
pub struct Or100Params {
    /// Channel select.
    pub channel: ChannelParam,
    /// The knobs, where their smoothers are headed.
    pub knobs: Knobs,
    /// Gain boost.
    pub gain_boost: bool,
    /// Global boost.
    pub global_boost: bool,
    /// Power / standby switch.
    pub power_switch: PowerParam,
    /// Wattage mode.
    pub output_power: OutputPowerParam,
    /// Cabinet emulation.
    pub cab_enabled: bool,
}

/// Switch positions and knob readings as control values.
pub open spec fn controls_of(params: Or100Params, knobs: Knobs) -> SampleControls {
    SampleControls {
        channel: channel_of(params.channel),
        clean_volume: knobs.clean_volume,
        clean_bass: knobs.clean_bass,
        clean_treble: knobs.clean_treble,
        dirty_gain: knobs.dirty_gain,
        dirty_bass: knobs.dirty_bass,
        dirty_middle: knobs.dirty_middle,
        dirty_treble: knobs.dirty_treble,
        dirty_volume: knobs.dirty_volume,
        gain_boost: params.gain_boost,
        global_boost: params.global_boost,
        power: power_of(params.power_switch),
        output_power: mode_of(params.output_power),
        cab_enabled: params.cab_enabled,
    }
}

/// Every knob at zero.
pub open spec fn zero_knobs() -> Knobs {
    Knobs {
        clean_volume: 0,
        clean_bass: 0,
        clean_treble: 0,
        dirty_gain: 0,
        dirty_bass: 0,
        dirty_middle: 0,
        dirty_treble: 0,
        dirty_volume: 0,
    }
}

impl Default for Or100Params {
    /// Dirty channel, gain at 6.5, every other knob at 5.0, boosts off, on at
    /// 100 W through the cabinet.
    fn default() -> (params: Self)
        ensures
            params.channel == ChannelParam::Dirty,
            params.power_switch == PowerParam::On,
            params.output_power == OutputPowerParam::Watt100,
            controls_of(params, params.knobs) == engine::default_controls(),
            !params.gain_boost,
            !params.global_boost,
            params.cab_enabled,
            params.knobs.dirty_gain == 0x40D0_0000,
            params.knobs.clean_volume == 0x40A0_0000,
            params.knobs.clean_bass == 0x40A0_0000,
            params.knobs.clean_treble == 0x40A0_0000,
            params.knobs.dirty_bass == 0x40A0_0000,
            params.knobs.dirty_middle == 0x40A0_0000,
            params.knobs.dirty_treble == 0x40A0_0000,
            params.knobs.dirty_volume == 0x40A0_0000,
    {
        Or100Params {
            channel: ChannelParam::Dirty,
            knobs: Knobs {
                clean_volume: KNOB_CENTRE,
                clean_bass: KNOB_CENTRE,
                clean_treble: KNOB_CENTRE,
                dirty_gain: GAIN_DEFAULT,
                dirty_bass: KNOB_CENTRE,
                dirty_middle: KNOB_CENTRE,
                dirty_treble: KNOB_CENTRE,
                dirty_volume: KNOB_CENTRE,
            },
            gain_boost: false,
            global_boost: false,
            power_switch: PowerParam::On,
            output_power: OutputPowerParam::Watt100,
            cab_enabled: true,
        }
    }
}

impl Or100Params {
    /// Reads the discrete switch positions, which are not smoothed.
    ///
    /// Called once per block; the knobs of the result are zero until
    /// [`fill_smoothed`] overwrites them per sample.
    pub fn block_controls(&self) -> (controls: SampleControls)
        ensures
            controls == controls_of(*self, zero_knobs()),
            controls.gain_boost == self.gain_boost,
            controls.global_boost == self.global_boost,
            controls.cab_enabled == self.cab_enabled,
            controls.channel == Channel::Dirty <==> self.channel == ChannelParam::Dirty,
            controls.power == PowerState::On <==> self.power_switch == PowerParam::On,
            controls.power == PowerState::Standby <==> self.power_switch == PowerParam::Standby,
            controls.output_power == PowerMode::Watt100 <==> self.output_power
                == OutputPowerParam::Watt100,
            controls.output_power == PowerMode::Watt70 <==> self.output_power
                == OutputPowerParam::Watt70,
            controls.output_power == PowerMode::Watt50 <==> self.output_power
                == OutputPowerParam::Watt50,
            controls.clean_volume == 0,
            controls.clean_bass == 0,
            controls.clean_treble == 0,
            controls.dirty_gain == 0,
            controls.dirty_bass == 0,
            controls.dirty_middle == 0,
            controls.dirty_treble == 0,
            controls.dirty_volume == 0,
    {
        SampleControls {
            channel: Channel::from(self.channel),
            clean_volume: 0,
            clean_bass: 0,
            clean_treble: 0,
            dirty_gain: 0,
            dirty_bass: 0,
            dirty_middle: 0,
            dirty_treble: 0,
            dirty_volume: 0,
            gain_boost: self.gain_boost,
            global_boost: self.global_boost,
            power: PowerState::from(self.power_switch),
            output_power: PowerMode::from(self.output_power),
            cab_enabled: self.cab_enabled,
        }
    }

    /// Snapshot of every control with the smoothers at their target values.
    pub fn settled_controls(&self) -> (controls: SampleControls)
        ensures
            controls == controls_of(*self, self.knobs),
            controls.gain_boost == self.gain_boost,
            controls.global_boost == self.global_boost,
            controls.cab_enabled == self.cab_enabled,
            controls.channel == Channel::Dirty <==> self.channel == ChannelParam::Dirty,
            controls.power == PowerState::On <==> self.power_switch == PowerParam::On,
            controls.power == PowerState::Standby <==> self.power_switch == PowerParam::Standby,
            controls.output_power == PowerMode::Watt100 <==> self.output_power
                == OutputPowerParam::Watt100,
            controls.output_power == PowerMode::Watt70 <==> self.output_power
                == OutputPowerParam::Watt70,
            controls.output_power == PowerMode::Watt50 <==> self.output_power
                == OutputPowerParam::Watt50,
            controls.clean_volume == self.knobs.clean_volume,
            controls.clean_bass == self.knobs.clean_bass,
            controls.clean_treble == self.knobs.clean_treble,
            controls.dirty_gain == self.knobs.dirty_gain,
            controls.dirty_bass == self.knobs.dirty_bass,
            controls.dirty_middle == self.knobs.dirty_middle,
            controls.dirty_treble == self.knobs.dirty_treble,
            controls.dirty_volume == self.knobs.dirty_volume,
    {
        let mut controls: SampleControls = self.block_controls();
        fill_smoothed(&mut controls, &self.knobs);
        controls
    }
}

/// Writes one sample's smoothed knob readings into `controls`.
///
/// All eight are written, even for the channel that is not selected: leaving
/// some out would make the output depend on how long ago a control was moved.
pub fn fill_smoothed(controls: &mut SampleControls, knobs: &Knobs)
    ensures
        *final(controls) == (SampleControls {
            clean_volume: knobs.clean_volume,
            clean_bass: knobs.clean_bass,
            clean_treble: knobs.clean_treble,
            dirty_gain: knobs.dirty_gain,
            dirty_bass: knobs.dirty_bass,
            dirty_middle: knobs.dirty_middle,
            dirty_treble: knobs.dirty_treble,
            dirty_volume: knobs.dirty_volume,
            ..*old(controls)
        }),
{
    controls.clean_volume = knobs.clean_volume;
    controls.clean_bass = knobs.clean_bass;
    controls.clean_treble = knobs.clean_treble;
    controls.dirty_gain = knobs.dirty_gain;
    controls.dirty_bass = knobs.dirty_bass;
    controls.dirty_middle = knobs.dirty_middle;
    controls.dirty_treble = knobs.dirty_treble;
    controls.dirty_volume = knobs.dirty_volume;
}

// ---------------------------------------------------------------------------
// The schema
// ---------------------------------------------------------------------------

/// One automatable parameter.
#[derive(Debug, Clone, Copy, PartialEq, Eq, Structural)]
pub enum Parameter {
    /// Channel select.
    Channel,
    /// Clean volume.
    CleanVolume,
    /// Clean bass.
    CleanBass,
    /// Clean treble.
    CleanTreble,
    /// Dirty gain.
    DirtyGain,
    /// Dirty bass.
    DirtyBass,
    /// Dirty middle.
    DirtyMiddle,
    /// Dirty treble.
    DirtyTreble,
    /// Dirty volume.
    DirtyVolume,
    /// Gain boost.
    GainBoost,
    /// Global boost.
    GlobalBoost,
    /// Power / standby switch.
    PowerSwitch,
    /// Wattage mode.
    OutputPower,
    /// Cabinet emulation.
    CabEnabled,
}

/// Number of parameters.
pub const PARAMETERS: usize = 14;

/// The parameters in schema order.
pub open spec fn parameter(index: int) -> Parameter {
    if index == 0 {
        Parameter::Channel
    } else if index == 1 {
        Parameter::CleanVolume
    } else if index == 2 {
        Parameter::CleanBass
    } else if index == 3 {
        Parameter::CleanTreble
    } else if index == 4 {
        Parameter::DirtyGain
    } else if index == 5 {
        Parameter::DirtyBass
    } else if index == 6 {
        Parameter::DirtyMiddle
    } else if index == 7 {
        Parameter::DirtyTreble
    } else if index == 8 {
        Parameter::DirtyVolume
    } else if index == 9 {
        Parameter::GainBoost
    } else if index == 10 {
        Parameter::GlobalBoost
    } else if index == 11 {
        Parameter::PowerSwitch
    } else if index == 12 {
        Parameter::OutputPower
    } else {
        Parameter::CabEnabled
    }
}

/// The name under which a parameter is saved and automated.
pub open spec fn id_text(parameter: Parameter) -> Seq<char> {
    match parameter {
        Parameter::Channel => "channel"@,
        Parameter::CleanVolume => "clean_volume"@,
        Parameter::CleanBass => "clean_bass"@,
        Parameter::CleanTreble => "clean_treble"@,
        Parameter::DirtyGain => "dirty_gain"@,
        Parameter::DirtyBass => "dirty_bass"@,
        Parameter::DirtyMiddle => "dirty_middle"@,
        Parameter::DirtyTreble => "dirty_treble"@,
        Parameter::DirtyVolume => "dirty_volume"@,
        Parameter::GainBoost => "gain_boost"@,
        Parameter::GlobalBoost => "global_boost"@,
        Parameter::PowerSwitch => "power_switch"@,
        Parameter::OutputPower => "output_power"@,
        Parameter::CabEnabled => "cab_enabled"@,
    }
}

/// Steps between the first and the last position of a switch, and none of a
/// knob.
pub open spec fn steps(parameter: Parameter) -> Option<usize> {
    match parameter {
        Parameter::Channel => Some(1),
        Parameter::GainBoost => Some(1),
        Parameter::GlobalBoost => Some(1),
        Parameter::PowerSwitch => Some(2),
        Parameter::OutputPower => Some(3),
        Parameter::CabEnabled => Some(1),
        _ => None,
    }
}

/// Whether a parameter is a volume or gain knob, with an exponential taper.
pub open spec fn exponential(parameter: Parameter) -> bool {
    parameter == Parameter::CleanVolume || parameter == Parameter::DirtyGain || parameter
        == Parameter::DirtyVolume
}

/// All parameters, in schema order.
pub fn all_parameters() -> (all: Vec<Parameter>)
    ensures
        all@ == Seq::new(PARAMETERS as nat, |i: int| parameter(i)),
{
    let all: Vec<Parameter> = vec![
        Parameter::Channel,
        Parameter::CleanVolume,
        Parameter::CleanBass,
        Parameter::CleanTreble,
        Parameter::DirtyGain,
        Parameter::DirtyBass,
        Parameter::DirtyMiddle,
        Parameter::DirtyTreble,
        Parameter::DirtyVolume,
        Parameter::GainBoost,
        Parameter::GlobalBoost,
        Parameter::PowerSwitch,
        Parameter::OutputPower,
        Parameter::CabEnabled,
    ];
    assert(all@ =~= Seq::new(PARAMETERS as nat, |i: int| parameter(i)));
    all
}

impl Parameter {
    /// The name under which the parameter is saved and automated.
    pub fn id(self) -> (id: &'static str)
        ensures
            id@ == id_text(self),
    {
        match self {
            Parameter::Channel => "channel",
            Parameter::CleanVolume => "clean_volume",
            Parameter::CleanBass => "clean_bass",
            Parameter::CleanTreble => "clean_treble",
            Parameter::DirtyGain => "dirty_gain",
            Parameter::DirtyBass => "dirty_bass",
            Parameter::DirtyMiddle => "dirty_middle",
            Parameter::DirtyTreble => "dirty_treble",
            Parameter::DirtyVolume => "dirty_volume",
            Parameter::GainBoost => "gain_boost",
            Parameter::GlobalBoost => "global_boost",
            Parameter::PowerSwitch => "power_switch",
            Parameter::OutputPower => "output_power",
            Parameter::CabEnabled => "cab_enabled",
        }
    }

    /// Steps between the first and the last position of a switch; `None` for a
    /// knob.
    pub fn step_count(self) -> (count: Option<usize>)
        ensures
            count == steps(self),
    {
        match self {
            Parameter::Channel => Some(1),
            Parameter::GainBoost => Some(1),
            Parameter::GlobalBoost => Some(1),
            Parameter::PowerSwitch => Some(2),
            Parameter::OutputPower => Some(3),
            Parameter::CabEnabled => Some(1),
            _ => None,
        }
    }

    /// Smoothing of a knob in ms; a switch has none.
    pub fn smoothing_ms(self) -> (ms: Option<u32>)
        ensures
            ms == if steps(self) is Some {
                None
            } else if exponential(self) {
                Some(VOLUME_SMOOTHING_MS)
            } else {
                Some(TONE_SMOOTHING_MS)
            },
    {
        match self {
            Parameter::CleanVolume => Some(VOLUME_SMOOTHING_MS),
            Parameter::DirtyGain => Some(VOLUME_SMOOTHING_MS),
            Parameter::DirtyVolume => Some(VOLUME_SMOOTHING_MS),
            Parameter::CleanBass => Some(TONE_SMOOTHING_MS),
            Parameter::CleanTreble => Some(TONE_SMOOTHING_MS),
            Parameter::DirtyBass => Some(TONE_SMOOTHING_MS),
            Parameter::DirtyMiddle => Some(TONE_SMOOTHING_MS),
            Parameter::DirtyTreble => Some(TONE_SMOOTHING_MS),
            _ => None,
        }
    }
}

/// Every control value is the parameter of its name: no switch or knob is lost,
/// fixed or mistaken for another.
pub proof fn law_every_parameter_reaches_its_control(params: Or100Params, knobs: Knobs)
    ensures
        controls_of(params, knobs).gain_boost == params.gain_boost,
        controls_of(params, knobs).global_boost == params.global_boost,
        controls_of(params, knobs).cab_enabled == params.cab_enabled,
        controls_of(params, knobs).channel == Channel::Clean <==> params.channel
            == ChannelParam::Clean,
        controls_of(params, knobs).channel == Channel::Dirty <==> params.channel
            == ChannelParam::Dirty,
        controls_of(params, knobs).power == PowerState::Off <==> params.power_switch
            == PowerParam::Off,
        controls_of(params, knobs).power == PowerState::Standby <==> params.power_switch
            == PowerParam::Standby,
        controls_of(params, knobs).power == PowerState::On <==> params.power_switch
            == PowerParam::On,
        controls_of(params, knobs).output_power == PowerMode::Watt100 <==> params.output_power
            == OutputPowerParam::Watt100,
        controls_of(params, knobs).output_power == PowerMode::Watt70 <==> params.output_power
            == OutputPowerParam::Watt70,
        controls_of(params, knobs).output_power == PowerMode::Watt50 <==> params.output_power
            == OutputPowerParam::Watt50,
        controls_of(params, knobs).output_power == PowerMode::Watt30 <==> params.output_power
            == OutputPowerParam::Watt30,
        controls_of(params, knobs).clean_volume == knobs.clean_volume,
        controls_of(params, knobs).clean_bass == knobs.clean_bass,
        controls_of(params, knobs).clean_treble == knobs.clean_treble,
        controls_of(params, knobs).dirty_gain == knobs.dirty_gain,
        controls_of(params, knobs).dirty_bass == knobs.dirty_bass,
        controls_of(params, knobs).dirty_middle == knobs.dirty_middle,
        controls_of(params, knobs).dirty_treble == knobs.dirty_treble,
        controls_of(params, knobs).dirty_volume == knobs.dirty_volume,
{
}

/// Knobs that differ anywhere give control values that differ, whatever the
/// switches.
pub proof fn law_a_turned_knob_shows(params: Or100Params, a: Knobs, b: Knobs)
    requires
        a != b,
    ensures
        controls_of(params, a) != controls_of(params, b),
{
}

/// What tells the parameters apart for a host: switches have as many steps as
/// positions less one, volume and gain knobs are smoothed over 15 ms, tone knobs
/// over 20 ms.
pub proof fn law_the_schema_in_numbers(p: Parameter)
    ensures
        steps(p) == Some(1usize) <==> p == Parameter::Channel || p == Parameter::GainBoost || p
            == Parameter::GlobalBoost || p == Parameter::CabEnabled,
        steps(p) == Some(2usize) <==> p == Parameter::PowerSwitch,
        steps(p) == Some(3usize) <==> p == Parameter::OutputPower,
        exponential(p) <==> p == Parameter::CleanVolume || p == Parameter::DirtyGain || p
            == Parameter::DirtyVolume,
        VOLUME_SMOOTHING_MS == 15,
        TONE_SMOOTHING_MS == 20,
{
}

/// The schema lists every parameter exactly once.
pub proof fn law_the_schema_is_complete(p: Parameter)
    ensures
        exists|i: int| 0 <= i < PARAMETERS && #[trigger] parameter(i) == p,
        forall|i: int, j: int|
            0 <= i < j < PARAMETERS ==> #[trigger] parameter(i) != #[trigger] parameter(j),
{
    let i: int = match p {
        Parameter::Channel => 0,
        Parameter::CleanVolume => 1,
        Parameter::CleanBass => 2,
        Parameter::CleanTreble => 3,
        Parameter::DirtyGain => 4,
        Parameter::DirtyBass => 5,
        Parameter::DirtyMiddle => 6,
        Parameter::DirtyTreble => 7,
        Parameter::DirtyVolume => 8,
        Parameter::GainBoost => 9,
        Parameter::GlobalBoost => 10,
        Parameter::PowerSwitch => 11,
        Parameter::OutputPower => 12,
        Parameter::CabEnabled => 13,
    };
    assert(parameter(i) == p);
}

/// No two parameters are saved under the same name.
pub proof fn law_ids_are_unique(a: Parameter, b: Parameter)
    requires
        id_text(a) == id_text(b),
    ensures
        a == b,
{
    reveal_strlit("channel");
    reveal_strlit("clean_volume");
    reveal_strlit("clean_bass");
    reveal_strlit("clean_treble");
    reveal_strlit("dirty_gain");
    reveal_strlit("dirty_bass");
    reveal_strlit("dirty_middle");
    reveal_strlit("dirty_treble");
    reveal_strlit("dirty_volume");
    reveal_strlit("gain_boost");
    reveal_strlit("global_boost");
    reveal_strlit("power_switch");
    reveal_strlit("output_power");
    reveal_strlit("cab_enabled");
    let x = id_text(a);
    let y = id_text(b);
    assert(x[0] == y[0] && x[1] == y[1] && x[4] == y[4] && x[6] == y[6] && x.len() == y.len());
    if x.len() > 7 {
        assert(x[7] == y[7]);
    }
}

} // verus!
