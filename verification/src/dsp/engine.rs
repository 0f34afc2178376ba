//! The amplifier's decisions: what is selected, when controls are applied, how
//! the rail moves, what the lamp shows, and which cabinet response is in force.

use vstd::prelude::*;

use crate::dsp::cabinet;
use crate::dsp::cabinet::Cabinet;
use crate::dsp::filters;
use crate::dsp::filters::{Direction, SwitchRamp};
use crate::dsp::power::PowerMode;
use crate::dsp::tonestack;
use crate::dsp::tonestack::{Request, Rotations, ToneStack};
use crate::ieee;
use crate::ir;

verus! {

/// How often the tone stacks are re-solved and switches are read, in samples at
/// the host rate.
pub const CONTROL_INTERVAL: u32 = 32;

/// Which preamp channel is selected.
#[derive(Debug, Clone, Copy, PartialEq, Eq, Structural)]
pub enum Channel {
    /// Single-stage clean channel with the 2-band tone stack.
    Clean,
    /// Three-stage cascaded channel with the 3-band tone stack.
    Dirty,
}

/// Position of the power / standby switch.
#[derive(Debug, Clone, Copy, PartialEq, Eq, Structural)]
pub enum PowerState {
    /// Mains off: no rail, no heaters, lamp dark.
    Off,
    /// Heaters on, `B+` disconnected: lamp lit, no output.
    Standby,
    /// Fully operational.
    On,
}

/// Control values for one sample. Knob readings are single-precision patterns
/// in `0.0..=10.0`.
#[derive(Debug, Clone, Copy, PartialEq, Eq, Structural)]
pub struct SampleControls {
    /// Selected channel.
    pub channel: Channel,
    /// Clean volume.
    pub clean_volume: u32,
    /// Clean bass.
    pub clean_bass: u32,
    /// Clean treble.
    pub clean_treble: u32,
    /// Dirty gain.
    pub dirty_gain: u32,
    /// Dirty bass.
    pub dirty_bass: u32,
    /// Dirty middle.
    pub dirty_middle: u32,
    /// Dirty treble.
    pub dirty_treble: u32,
    /// Dirty volume.
    pub dirty_volume: u32,
    /// More drive into the back half of the cascade.
    pub gain_boost: bool,
    /// +3 dB into the phase inverter.
    pub global_boost: bool,
    /// Power / standby switch position.
    pub power: PowerState,
    /// Wattage mode.
    pub output_power: PowerMode,
    /// Cabinet simulation on or bypassed.
    pub cab_enabled: bool,
}

/// The number 5.0, where every knob but the gain stands by default.
pub const KNOB_CENTRE: u32 = 0x40A0_0000;

/// The number 6.5, where the dirty gain stands by default.
pub const GAIN_DEFAULT: u32 = 0x40D0_0000;

impl Default for SampleControls {
    /// The default patch: dirty channel, 100 W, cabinet on.
    fn default() -> (controls: Self)
        ensures
            controls == default_controls(),
            controls.channel == Channel::Dirty,
            controls.dirty_gain == 0x40D0_0000,
            controls.clean_volume == 0x40A0_0000,
            controls.clean_bass == 0x40A0_0000,
            controls.clean_treble == 0x40A0_0000,
            controls.dirty_bass == 0x40A0_0000,
            controls.dirty_middle == 0x40A0_0000,
            controls.dirty_treble == 0x40A0_0000,
            controls.dirty_volume == 0x40A0_0000,
            !controls.gain_boost,
            !controls.global_boost,
            controls.power == PowerState::On,
            controls.output_power == PowerMode::Watt100,
            controls.cab_enabled,
    {
        SampleControls {
            channel: Channel::Dirty,
            clean_volume: KNOB_CENTRE,
            clean_bass: KNOB_CENTRE,
            clean_treble: KNOB_CENTRE,
            dirty_gain: GAIN_DEFAULT,
            dirty_bass: KNOB_CENTRE,
            dirty_middle: KNOB_CENTRE,
            dirty_treble: KNOB_CENTRE,
            dirty_volume: KNOB_CENTRE,
            gain_boost: false,
            global_boost: false,
            power: PowerState::On,
            output_power: PowerMode::Watt100,
            cab_enabled: true,
        }
    }
}

/// The default patch.
pub open spec fn default_controls() -> SampleControls {
    SampleControls {
        channel: Channel::Dirty,
        clean_volume: KNOB_CENTRE,
        clean_bass: KNOB_CENTRE,
        clean_treble: KNOB_CENTRE,
        dirty_gain: GAIN_DEFAULT,
        dirty_bass: KNOB_CENTRE,
        dirty_middle: KNOB_CENTRE,
        dirty_treble: KNOB_CENTRE,
        dirty_volume: KNOB_CENTRE,
        gain_boost: false,
        global_boost: false,
        power: PowerState::On,
        output_power: PowerMode::Watt100,
        cab_enabled: true,
    }
}

// ---------------------------------------------------------------------------
// Control rate
// ---------------------------------------------------------------------------

/// Counts samples between control updates.
pub struct ControlClock {
    counter: u32,
    ticks: Ghost<nat>,
}

impl ControlClock {
    /// Samples since the clock was started.
    pub closed spec fn elapsed(&self) -> nat {
        self.ticks@
    }

    /// What every operation keeps.
    pub closed spec fn well_formed(&self) -> bool {
        self.counter == self.ticks@ % (CONTROL_INTERVAL as nat)
    }

    /// A clock at its start.
    pub fn new() -> (clock: Self)
        ensures
            clock.well_formed(),
            clock.elapsed() == 0,
    {
        ControlClock { counter: 0, ticks: Ghost(0) }
    }

    /// Counts one sample and says whether controls are due on it: on the first,
    /// and on every [`CONTROL_INTERVAL`]-th after it.
    pub fn tick(&mut self) -> (due: bool)
        requires
            old(self).well_formed(),
        ensures
            final(self).well_formed(),
            final(self).elapsed() == old(self).elapsed() + 1,
            due == (old(self).elapsed() % (CONTROL_INTERVAL as nat) == 0),
            due == (old(self).elapsed() % 32 == 0),
    {
        let due: bool = self.counter == 0;
        self.counter = self.counter + 1;
        if self.counter >= CONTROL_INTERVAL {
            self.counter = 0;
        }
        self.ticks = Ghost(self.ticks@ + 1);
        due
    }
}

// ---------------------------------------------------------------------------
// Power switch
// ---------------------------------------------------------------------------

/// What lights the jewel lamp.
#[derive(Debug, Clone, Copy, PartialEq, Eq, Structural)]
pub enum Lamp {
    /// Nothing: mains are off.
    Dark,
    /// The heater supply, at the fixed brightness 0.55.
    Pilot,
    /// The sagging rail.
    Rail,
}

/// The number 0.55.
pub const PILOT_BRIGHTNESS: u32 = 0x3F0C_CCCD;

/// What lights the lamp in a switch position.
pub fn lamp_brightness(power: PowerState) -> (lamp: Lamp)
    ensures
        lamp == match power {
            PowerState::Off => Lamp::Dark,
            PowerState::Standby => Lamp::Pilot,
            PowerState::On => Lamp::Rail,
        },
{
    match power {
        PowerState::Off => Lamp::Dark,
        PowerState::Standby => Lamp::Pilot,
        PowerState::On => Lamp::Rail,
    }
}

/// The rail the power switch calls for.
pub open spec fn rail_target(power: PowerState) -> u32 {
    filters::weight(power == PowerState::On)
}

/// The rail the power switch calls for: all of it when on, none otherwise.
pub fn rail_goal(power: PowerState) -> (target: u32)
    ensures
        target == rail_target(power),
        power == PowerState::On ==> target == 0x3F80_0000,
        power != PowerState::On ==> target == 0,
{
    match power {
        PowerState::On => filters::ONE,
        _ => 0,
    }
}

/// Gain of the final output: unity when on, else whatever is left of the rail,
/// so a switched-off amplifier ends in hard silence.
pub fn mute(power: PowerState, rail: u32) -> (gain: u32)
    ensures
        gain == if power == PowerState::On {
            filters::ONE
        } else {
            rail
        },
{
    match power {
        PowerState::On => filters::ONE,
        _ => rail,
    }
}

/// Once the rail has bled away, a switched-off or standby amplifier is silent,
/// and a running one is not muted.
pub proof fn law_off_and_standby_end_in_silence(power: PowerState)
    ensures
        power != PowerState::On ==> rail_target(power) == 0,
        power == PowerState::On ==> rail_target(power) == filters::ONE,
        forall|moved: u32| #[trigger]
            filters::arrived(rail_target(power), rail_target(power), moved) == rail_target(power),
{
}

// ---------------------------------------------------------------------------
// The engine
// ---------------------------------------------------------------------------

/// What to do with one sample.
#[derive(Debug, Clone, Copy, PartialEq, Eq, Structural)]
pub enum SampleStart {
    /// Return silence: the engine is not prepared.
    Silence,
    /// Apply the controls, and process.
    ApplyControls,
    /// Process.
    Process,
}

/// What the audio thread does about the impulse response slot.
#[derive(Debug, Clone, Copy, PartialEq, Eq, Structural)]
pub enum PendingIr {
    /// Nothing was published.
    Nothing,
    /// The built-in cabinet was asked for.
    RestoreDefault,
    /// This many taps were published.
    Load(usize),
}

/// Interprets what was collected from the impulse response slot: a length of
/// zero asks for the built-in cabinet.
pub fn pending_impulse_response(collected: Option<usize>) -> (pending: PendingIr)
    ensures
        pending == match collected {
            None => PendingIr::Nothing,
            Some(length) => if length == 0 {
                PendingIr::RestoreDefault
            } else {
                PendingIr::Load(length)
            },
        },
{
    match collected {
        None => PendingIr::Nothing,
        Some(length) => if length == 0 {
            PendingIr::RestoreDefault
        } else {
            PendingIr::Load(length)
        },
    }
}

/// Which channels are heard at a weight of the channel switch, `0.0` being the
/// clean channel and `1.0` the dirty one. A channel that is not heard is run on
/// silence, so that it stays settled.
#[derive(Debug, Clone, Copy, PartialEq, Eq, Structural)]
pub struct Audible {
    /// Whether the clean channel is heard.
    pub clean: bool,
    /// Whether the dirty channel is heard.
    pub dirty: bool,
}

/// Which channels are heard at a weight of the channel switch.
pub open spec fn heard(channel: u32) -> Audible {
    Audible { clean: ieee::below(channel, filters::ONE), dirty: ieee::below(0, channel) }
}

/// Finds which channels are heard at a weight of the channel switch.
pub fn audible(channel: u32) -> (audible: Audible)
    ensures
        audible == heard(channel),
        audible.clean == ieee::below(channel, 0x3F80_0000),
        audible.dirty == ieee::below(0, channel),
{
    Audible {
        clean: ieee::is_below(channel, filters::ONE),
        dirty: ieee::is_below(0, channel),
    }
}

/// Some channel is heard at every weight that is a number, both during a
/// crossfade, and exactly the selected one once the switch has settled.
pub proof fn law_a_channel_is_always_heard(channel: u32)
    requires
        !ieee::not_a_number(channel),
    ensures
        heard(channel).clean || heard(channel).dirty,
        ieee::below(0, channel) && ieee::below(channel, filters::ONE) ==> heard(channel).clean
            && heard(channel).dirty,
        heard(filters::weight(true)) == (Audible { clean: false, dirty: true }),
        heard(filters::weight(false)) == (Audible { clean: true, dirty: false }),
{
    ieee::lemma_units_increase(0, filters::ONE as int);
    assert(ieee::magnitude(filters::ONE) == filters::ONE);
}

/// Weights of everything that moves gradually, single-precision patterns in
/// `0.0..=1.0`.
#[derive(Debug, Clone, Copy, PartialEq, Eq, Structural)]
pub struct Weights {
    /// The channel switch: clean at `0.0`, dirty at `1.0`.
    pub channel: u32,
    /// The gain boost.
    pub gain_boost: u32,
    /// The global boost.
    pub global_boost: u32,
    /// The fraction of the rail that is available.
    pub rail: u32,
}

/// Which way each weight moves next.
#[derive(Debug, Clone, Copy, PartialEq, Eq, Structural)]
pub struct Headings {
    /// The channel switch.
    pub channel: Direction,
    /// The gain boost.
    pub gain_boost: Direction,
    /// The global boost.
    pub global_boost: Direction,
    /// The rail.
    pub rail: Direction,
}

/// The weights at which the switches and the rail stand still.
pub open spec fn settled_weights(controls: SampleControls) -> Weights {
    Weights {
        channel: filters::weight(controls.channel == Channel::Dirty),
        gain_boost: filters::weight(controls.gain_boost),
        global_boost: filters::weight(controls.global_boost),
        rail: rail_target(controls.power),
    }
}

/// Where each weight heads from `now`, on the way to `goal`.
pub open spec fn headings_to(now: Weights, goal: Weights) -> Headings {
    Headings {
        channel: filters::heading(now.channel, goal.channel),
        gain_boost: filters::heading(now.gain_boost, goal.gain_boost),
        global_boost: filters::heading(now.global_boost, goal.global_boost),
        rail: filters::heading(now.rail, goal.rail),
    }
}

/// Where steps from `now` that reached for `moved` end, on the way to `goal`.
pub open spec fn weights_after(now: Weights, goal: Weights, moved: Weights) -> Weights {
    Weights {
        channel: filters::arrived(now.channel, goal.channel, moved.channel),
        gain_boost: filters::arrived(now.gain_boost, goal.gain_boost, moved.gain_boost),
        global_boost: filters::arrived(now.global_boost, goal.global_boost, moved.global_boost),
        rail: filters::arrived(now.rail, goal.rail, moved.rail),
    }
}

/// Every switch has a weight of its own, which says where it stands: one once
/// the dirty channel, a boost or the power is on, and zero otherwise.
pub proof fn law_every_switch_has_its_weight(controls: SampleControls)
    ensures
        settled_weights(controls).channel == 0x3F80_0000 <==> controls.channel == Channel::Dirty,
        settled_weights(controls).gain_boost == 0x3F80_0000 <==> controls.gain_boost,
        settled_weights(controls).global_boost == 0x3F80_0000 <==> controls.global_boost,
        settled_weights(controls).rail == 0x3F80_0000 <==> controls.power == PowerState::On,
        settled_weights(controls).channel == 0 <==> controls.channel == Channel::Clean,
        settled_weights(controls).gain_boost == 0 <==> !controls.gain_boost,
        settled_weights(controls).global_boost == 0 <==> !controls.global_boost,
        settled_weights(controls).rail == 0 <==> controls.power != PowerState::On,
{
}

/// No weight moves another: where each one ends depends on where it is, where it
/// goes and how far it reached, and on no other weight.
pub proof fn law_weights_move_apart(a: Weights, b: Weights, goal: Weights, moved: Weights)
    ensures
        a.channel == b.channel ==> weights_after(a, goal, moved).channel == weights_after(
            b,
            goal,
            moved,
        ).channel,
        a.gain_boost == b.gain_boost ==> weights_after(a, goal, moved).gain_boost == weights_after(
            b,
            goal,
            moved,
        ).gain_boost,
        a.global_boost == b.global_boost ==> weights_after(a, goal, moved).global_boost
            == weights_after(b, goal, moved).global_boost,
        a.rail == b.rail ==> weights_after(a, goal, moved).rail == weights_after(b, goal, moved).rail,
        weights_after(a, Weights { channel: a.channel, ..goal }, moved).channel == a.channel,
        weights_after(a, Weights { gain_boost: a.gain_boost, ..goal }, moved).gain_boost
            == a.gain_boost,
        weights_after(a, Weights { global_boost: a.global_boost, ..goal }, moved).global_boost
            == a.global_boost,
        weights_after(a, Weights { rail: a.rail, ..goal }, moved).rail == a.rail,
{
}

/// An amplifier whose switches have settled stays as it is, whatever steps are
/// tried.
pub proof fn law_settled_weights_stay(controls: SampleControls, moved: Weights)
    ensures
        weights_after(settled_weights(controls), settled_weights(controls), moved)
            == settled_weights(controls),
{
}

/// The amplifier's state around its arithmetic.
pub struct AmpEngine {
    cabinet: Cabinet,
    clock: ControlClock,
    clean_stack: ToneStack,
    dirty_stack: ToneStack,
    channel_ramp: SwitchRamp,
    gain_boost_ramp: SwitchRamp,
    global_boost_ramp: SwitchRamp,
    rail: u32,
    mode: PowerMode,
    prepared: bool,
}

impl AmpEngine {
    /// The cabinet stage.
    pub closed spec fn stage(&self) -> Cabinet {
        self.cabinet
    }

    /// Samples since the last reset.
    pub closed spec fn elapsed(&self) -> nat {
        self.clock.elapsed()
    }

    /// Whether the engine is prepared.
    pub closed spec fn ready(&self) -> bool {
        self.prepared
    }

    /// The rotations the clean tone stack is solved for.
    pub closed spec fn clean_solution(&self) -> Option<Rotations> {
        self.clean_stack.solution()
    }

    /// The rotations the dirty tone stack is solved for.
    pub closed spec fn dirty_solution(&self) -> Option<Rotations> {
        self.dirty_stack.solution()
    }

    /// The weights in force.
    pub closed spec fn now(&self) -> Weights {
        Weights {
            channel: self.channel_ramp.position(),
            gain_boost: self.gain_boost_ramp.position(),
            global_boost: self.global_boost_ramp.position(),
            rail: self.rail,
        }
    }

    /// The weights the switches are on their way to, with the power switch at
    /// `power`.
    pub closed spec fn goal(&self, power: PowerState) -> Weights {
        Weights {
            channel: self.channel_ramp.goal(),
            gain_boost: self.gain_boost_ramp.goal(),
            global_boost: self.global_boost_ramp.goal(),
            rail: rail_target(power),
        }
    }

    /// The wattage mode in force.
    pub closed spec fn wattage(&self) -> PowerMode {
        self.mode
    }

    /// What every operation keeps.
    pub closed spec fn well_formed(&self) -> bool {
        &&& self.cabinet.well_formed()
        &&& self.clock.well_formed()
        &&& self.prepared ==> self.clean_stack.ready() && self.dirty_stack.ready()
    }

    /// Whether `self` and `other` agree on everything but the cabinet stage and
    /// the clock.
    pub open spec fn same_settings(&self, other: &AmpEngine) -> bool {
        &&& self.ready() == other.ready()
        &&& self.now() == other.now()
        &&& forall|power: PowerState| #[trigger] self.goal(power) == other.goal(power)
        &&& self.wattage() == other.wattage()
        &&& self.clean_solution() == other.clean_solution()
        &&& self.dirty_solution() == other.dirty_solution()
    }

    /// Whether the engine is as it was built: unprepared, its cabinet silent and
    /// without a response, no tone stack solved, every switch settled at off and
    /// the rail down.
    pub open spec fn fresh(&self) -> bool {
        &&& !self.ready()
        &&& !self.stage().ready()
        &&& self.stage().inputs() == Seq::<u32>::empty()
        &&& self.stage().response() == Seq::<u32>::empty()
        &&& self.stage().fallback() == Seq::<u32>::empty()
        &&& self.stage().wet() == Seq::new(cabinet::PARTITION as nat, |i: int| 0u32)
        &&& self.elapsed() == 0
        &&& self.clean_solution() is None
        &&& self.dirty_solution() is None
        &&& self.now() == (Weights { channel: 0, gain_boost: 0, global_boost: 0, rail: 0 })
        &&& forall|power: PowerState| #[trigger]
            self.goal(power) == (Weights {
                channel: 0,
                gain_boost: 0,
                global_boost: 0,
                rail: rail_target(power),
            })
        &&& self.wattage() == PowerMode::Watt100
    }

    /// Builds an unprepared engine.
    pub fn new() -> (engine: Self)
        ensures
            engine.well_formed(),
            engine.fresh(),
    {
        AmpEngine {
            cabinet: Cabinet::new(),
            clock: ControlClock::new(),
            clean_stack: ToneStack::new(),
            dirty_stack: ToneStack::new(),
            channel_ramp: SwitchRamp::default(),
            gain_boost_ramp: SwitchRamp::default(),
            global_boost_ramp: SwitchRamp::default(),
            rail: 0,
            mode: PowerMode::Watt100,
            prepared: false,
        }
    }

    /// Starts from `controls`, with every switch settled and the rail where the
    /// power switch has it, and takes over a freshly synthesised cabinet
    /// response, whose frames are to be transformed next. Neither tone stack is
    /// solved yet.
    pub fn begin_prepare(&mut self, default_response: Vec<u32>, controls: &SampleControls)
        requires
            old(self).well_formed(),
            default_response@.len() == cabinet::IR_LENGTH,
        ensures
            final(self).well_formed(),
            final(self).ready(),
            final(self).stage().response() == default_response@,
            final(self).stage().fallback() == default_response@,
            final(self).stage().inputs() == old(self).stage().inputs(),
            final(self).stage().wet() == old(self).stage().wet(),
            !final(self).stage().ready(),
            final(self).elapsed() == old(self).elapsed(),
            final(self).now() == settled_weights(*controls),
            final(self).now().channel == (if controls.channel == Channel::Dirty {
                0x3F80_0000u32
            } else {
                0
            }),
            final(self).now().gain_boost == (if controls.gain_boost {
                0x3F80_0000u32
            } else {
                0
            }),
            final(self).now().global_boost == (if controls.global_boost {
                0x3F80_0000u32
            } else {
                0
            }),
            final(self).now().rail == (if controls.power == PowerState::On {
                0x3F80_0000u32
            } else {
                0
            }),
            forall|power: PowerState|
                {
                    let goal = #[trigger] final(self).goal(power);
                    &&& goal.channel == (if controls.channel == Channel::Dirty {
                        0x3F80_0000u32
                    } else {
                        0
                    })
                    &&& goal.gain_boost == (if controls.gain_boost {
                        0x3F80_0000u32
                    } else {
                        0
                    })
                    &&& goal.global_boost == (if controls.global_boost {
                        0x3F80_0000u32
                    } else {
                        0
                    })
                    &&& goal.rail == (if power == PowerState::On {
                        0x3F80_0000u32
                    } else {
                        0
                    })
                },
            forall|power: PowerState| #[trigger]
                final(self).goal(power) == settled_weights(SampleControls { power, ..*controls }),
            final(self).wattage() == controls.output_power,
            final(self).clean_solution() is None,
            final(self).dirty_solution() is None,
    {
        self.clean_stack.prepare();
        self.dirty_stack.prepare();
        let dirty: bool = match controls.channel {
            Channel::Dirty => true,
            Channel::Clean => false,
        };
        self.channel_ramp = SwitchRamp::prepare(dirty);
        self.gain_boost_ramp = SwitchRamp::prepare(controls.gain_boost);
        self.global_boost_ramp = SwitchRamp::prepare(controls.global_boost);
        self.rail = rail_goal(controls.power);
        self.mode = controls.output_power;
        self.prepared = true;
        self.cabinet.begin_prepare(default_response);
    }

    /// Ends [`Self::begin_prepare`]. The engine is usable either way; a cabinet
    /// whose frames could not be transformed is passed through.
    pub fn finish_prepare(&mut self, transformed: bool) -> (cabinet_ready: bool)
        requires
            old(self).well_formed(),
            old(self).stage().response().len() == cabinet::IR_LENGTH,
            old(self).stage().fallback().len() == cabinet::IR_LENGTH,
        ensures
            final(self).well_formed(),
            cabinet_ready == transformed,
            final(self).same_settings(old(self)),
            final(self).stage().ready() == transformed,
            final(self).stage().response() == old(self).stage().response(),
            final(self).stage().fallback() == old(self).stage().fallback(),
            final(self).stage().inputs() == Seq::<u32>::empty(),
            final(self).stage().wet() == Seq::new(cabinet::PARTITION as nat, |i: int| 0u32),
            final(self).elapsed() == 0,
    {
        let cabinet_ready: bool = self.cabinet.finish_prepare(transformed);
        self.reset();
        cabinet_ready
    }

    /// Returns to the quiescent state, keeping the responses, the solutions and
    /// the switches.
    pub fn reset(&mut self)
        requires
            old(self).well_formed(),
        ensures
            final(self).well_formed(),
            final(self).same_settings(old(self)),
            final(self).stage().ready() == old(self).stage().ready(),
            final(self).stage().response() == old(self).stage().response(),
            final(self).stage().fallback() == old(self).stage().fallback(),
            final(self).stage().inputs() == Seq::<u32>::empty(),
            final(self).stage().wet() == Seq::new(cabinet::PARTITION as nat, |i: int| 0u32),
            final(self).elapsed() == 0,
    {
        self.cabinet.reset();
        self.clock = ControlClock::new();
    }

    /// Total latency in host samples: the oversampling cascade's `oversampling`
    /// plus the convolution partition.
    pub fn latency_samples(&self, oversampling: u32) -> (latency: u32)
        requires
            oversampling <= u32::MAX - 64,
        ensures
            latency == oversampling + cabinet::PARTITION,
            latency == oversampling + 64,
    {
        oversampling + Cabinet::latency_samples()
    }

    /// Starts one sample.
    pub fn begin_sample(&mut self) -> (start: SampleStart)
        requires
            old(self).well_formed(),
        ensures
            final(self).well_formed(),
            final(self).same_settings(old(self)),
            final(self).stage() == old(self).stage(),
            start == (if !old(self).ready() {
                SampleStart::Silence
            } else if old(self).elapsed() % (CONTROL_INTERVAL as nat) == 0 {
                SampleStart::ApplyControls
            } else {
                SampleStart::Process
            }),
            old(self).ready() ==> (start == SampleStart::ApplyControls <==> old(self).elapsed() % 32
                == 0),
            final(self).elapsed() == old(self).elapsed() + (if old(self).ready() {
                1nat
            } else {
                0
            }),
    {
        if !self.prepared {
            return SampleStart::Silence;
        }
        if self.clock.tick() {
            SampleStart::ApplyControls
        } else {
            SampleStart::Process
        }
    }

    /// Applies discrete switch positions, and says what the pot rotations call
    /// for on the clean and on the dirty tone stack.
    ///
    /// The switches get their new goals; their weights only move with
    /// [`Self::advance`].
    pub fn update_control_rate(
        &mut self,
        controls: &SampleControls,
        clean: Rotations,
        dirty: Rotations,
    ) -> (requests: (Request, Request))
        requires
            old(self).well_formed(),
            old(self).ready(),
        ensures
            final(self).well_formed(),
            final(self).ready(),
            requests.0 == tonestack::request_for(old(self).clean_solution(), clean),
            requests.1 == tonestack::request_for(old(self).dirty_solution(), dirty),
            final(self).now() == old(self).now(),
            forall|power: PowerState|
                {
                    let goal = #[trigger] final(self).goal(power);
                    &&& goal.channel == (if controls.channel == Channel::Dirty {
                        0x3F80_0000u32
                    } else {
                        0
                    })
                    &&& goal.gain_boost == (if controls.gain_boost {
                        0x3F80_0000u32
                    } else {
                        0
                    })
                    &&& goal.global_boost == (if controls.global_boost {
                        0x3F80_0000u32
                    } else {
                        0
                    })
                    &&& goal.rail == (if power == PowerState::On {
                        0x3F80_0000u32
                    } else {
                        0
                    })
                },
            forall|power: PowerState| #[trigger]
                final(self).goal(power) == settled_weights(SampleControls { power, ..*controls }),
            final(self).wattage() == controls.output_power,
            final(self).clean_solution() == old(self).clean_solution(),
            final(self).dirty_solution() == old(self).dirty_solution(),
            final(self).stage() == old(self).stage(),
            final(self).elapsed() == old(self).elapsed(),
    {
        let for_clean: Request = self.clean_stack.set_controls(clean.treble, clean.bass, clean.mid);
        let for_dirty: Request = self.dirty_stack.set_controls(dirty.treble, dirty.bass, dirty.mid);
        self.mode = controls.output_power;
        let to_dirty: bool = match controls.channel {
            Channel::Dirty => true,
            Channel::Clean => false,
        };
        self.channel_ramp.set(to_dirty);
        self.gain_boost_ramp.set(controls.gain_boost);
        self.global_boost_ramp.set(controls.global_boost);
        (for_clean, for_dirty)
    }

    /// Notes how solving the clean tone stack went.
    pub fn note_clean_solution(&mut self, rotations: Rotations, solvable: bool) -> (accepted: bool)
        requires
            old(self).well_formed(),
        ensures
            final(self).well_formed(),
            accepted == solvable,
            final(self).clean_solution() == if solvable {
                Some(rotations)
            } else {
                old(self).clean_solution()
            },
            final(self).dirty_solution() == old(self).dirty_solution(),
            final(self).ready() == old(self).ready(),
            final(self).now() == old(self).now(),
            forall|power: PowerState| #[trigger] final(self).goal(power) == old(self).goal(power),
            final(self).wattage() == old(self).wattage(),
            final(self).stage() == old(self).stage(),
            final(self).elapsed() == old(self).elapsed(),
    {
        self.clean_stack.note_solution(rotations, solvable)
    }

    /// Notes how solving the dirty tone stack went.
    pub fn note_dirty_solution(&mut self, rotations: Rotations, solvable: bool) -> (accepted: bool)
        requires
            old(self).well_formed(),
        ensures
            final(self).well_formed(),
            accepted == solvable,
            final(self).dirty_solution() == if solvable {
                Some(rotations)
            } else {
                old(self).dirty_solution()
            },
            final(self).clean_solution() == old(self).clean_solution(),
            final(self).ready() == old(self).ready(),
            final(self).now() == old(self).now(),
            forall|power: PowerState| #[trigger] final(self).goal(power) == old(self).goal(power),
            final(self).wattage() == old(self).wattage(),
            final(self).stage() == old(self).stage(),
            final(self).elapsed() == old(self).elapsed(),
    {
        self.dirty_stack.note_solution(rotations, solvable)
    }

    /// The weights in force.
    pub fn weights(&self) -> (weights: Weights)
        ensures
            weights == self.now(),
    {
        Weights {
            channel: self.channel_ramp.value(),
            gain_boost: self.gain_boost_ramp.value(),
            global_boost: self.global_boost_ramp.value(),
            rail: self.rail,
        }
    }

    /// Which way the weights move next, with the power switch at `power`.
    pub fn headings(&self, power: PowerState) -> (headings: Headings)
        ensures
            headings == headings_to(self.now(), self.goal(power)),
            headings.channel == filters::heading(self.now().channel, self.goal(power).channel),
            headings.gain_boost == filters::heading(
                self.now().gain_boost,
                self.goal(power).gain_boost,
            ),
            headings.global_boost == filters::heading(
                self.now().global_boost,
                self.goal(power).global_boost,
            ),
            headings.rail == filters::heading(self.now().rail, self.goal(power).rail),
    {
        Headings {
            channel: self.channel_ramp.direction(),
            gain_boost: self.gain_boost_ramp.direction(),
            global_boost: self.global_boost_ramp.direction(),
            rail: filters::direction_of(self.rail, rail_goal(power)),
        }
    }

    /// Moves the weights by one sample: `moved` is what a step in the direction
    /// of [`Self::headings`] reaches for.
    pub fn advance(&mut self, power: PowerState, moved: Weights) -> (weights: Weights)
        requires
            old(self).well_formed(),
        ensures
            final(self).well_formed(),
            weights == final(self).now(),
            final(self).now() == weights_after(old(self).now(), old(self).goal(power), moved),
            final(self).now().channel == filters::arrived(
                old(self).now().channel,
                old(self).goal(power).channel,
                moved.channel,
            ),
            final(self).now().gain_boost == filters::arrived(
                old(self).now().gain_boost,
                old(self).goal(power).gain_boost,
                moved.gain_boost,
            ),
            final(self).now().global_boost == filters::arrived(
                old(self).now().global_boost,
                old(self).goal(power).global_boost,
                moved.global_boost,
            ),
            final(self).now().rail == filters::arrived(
                old(self).now().rail,
                old(self).goal(power).rail,
                moved.rail,
            ),
            forall|power: PowerState| #[trigger] final(self).goal(power) == old(self).goal(power),
            final(self).ready() == old(self).ready(),
            final(self).wattage() == old(self).wattage(),
            final(self).clean_solution() == old(self).clean_solution(),
            final(self).dirty_solution() == old(self).dirty_solution(),
            final(self).stage() == old(self).stage(),
            final(self).elapsed() == old(self).elapsed(),
    {
        let channel: u32 = self.channel_ramp.advance(moved.channel);
        let gain_boost: u32 = self.gain_boost_ramp.advance(moved.gain_boost);
        let global_boost: u32 = self.global_boost_ramp.advance(moved.global_boost);
        self.rail = filters::arrive_at(self.rail, rail_goal(power), moved.rail);
        Weights { channel, gain_boost, global_boost, rail: self.rail }
    }

    /// The wattage mode in force.
    pub fn mode(&self) -> (mode: PowerMode)
        ensures
            mode == self.wattage(),
    {
        self.mode
    }

    /// Runs one sample through the cabinet stage; see [`Cabinet::process`].
    pub fn process_cabinet(&mut self, input: u32, enabled: bool) -> (result: (u32, bool))
        requires
            old(self).well_formed(),
        ensures
            final(self).well_formed(),
            final(self).same_settings(old(self)),
            final(self).elapsed() == old(self).elapsed(),
            final(self).stage().inputs() == old(self).stage().inputs().push(input),
            final(self).stage().wet() == old(self).stage().wet(),
            final(self).stage().ready() == old(self).stage().ready(),
            final(self).stage().response() == old(self).stage().response(),
            final(self).stage().fallback() == old(self).stage().fallback(),
            result.0 == if enabled && old(self).stage().ready() {
                crate::dsp::denormal::contained(
                    old(self).stage().wet()[old(self).stage().inputs().len() as int % (
                    cabinet::PARTITION as int)],
                    crate::dsp::denormal::AUDIO_LIMIT,
                )
            } else {
                cabinet::past(
                    old(self).stage().inputs(),
                    old(self).stage().inputs().len() - cabinet::PARTITION,
                    0,
                )
            },
            result.1 == (old(self).stage().ready() && final(self).stage().inputs().len() % (
            cabinet::PARTITION as nat) == 0),
            !enabled && old(self).stage().inputs().len() >= 64 ==> result.0
                == old(self).stage().inputs()[old(self).stage().inputs().len() - 64],
            !enabled && old(self).stage().inputs().len() < 64 ==> result.0 == 0,
    {
        self.cabinet.process(input, enabled)
    }

    /// The cabinet stage, to read its windows, frames and slots.
    pub fn cabinet(&self) -> (stage: &Cabinet)
        requires
            self.well_formed(),
        ensures
            *stage == self.stage(),
            stage.well_formed(),
    {
        &self.cabinet
    }

    /// Hands the cabinet a convolved block; see [`Cabinet::finish_block`].
    pub fn finish_block(&mut self, block: &[u32])
        requires
            old(self).well_formed(),
            block@.len() == cabinet::PARTITION,
        ensures
            final(self).well_formed(),
            final(self).same_settings(old(self)),
            final(self).elapsed() == old(self).elapsed(),
            final(self).stage().wet() == block@,
            final(self).stage().inputs() == old(self).stage().inputs(),
            final(self).stage().ready() == old(self).stage().ready(),
            final(self).stage().response() == old(self).stage().response(),
            final(self).stage().fallback() == old(self).stage().fallback(),
    {
        self.cabinet.finish_block(block);
    }

    /// Decides whether `taps` can replace the cabinet response, and if so fits
    /// them into `out`, there to be levelled; see [`Cabinet::load_ir`].
    pub fn load_impulse_response(&self, taps: &[u32], out: &mut [u32]) -> (accepted: bool)
        requires
            self.well_formed(),
            old(out)@.len() == cabinet::IR_LENGTH,
        ensures
            accepted == (self.ready() && self.stage().ready() && taps@.len() > 0 && ir::all_finite(
                taps@,
            )),
            final(out)@ == if accepted {
                cabinet::fitted(taps@)
            } else {
                old(out)@
            },
    {
        if !self.prepared {
            return false;
        }
        self.cabinet.load_ir(taps, out)
    }

    /// Puts a levelled response in force, or keeps the previous one where there
    /// is none; see [`Cabinet::commit_ir`].
    pub fn commit_impulse_response(&mut self, levelled: Option<&[u32]>) -> (committed: bool)
        requires
            old(self).well_formed(),
            levelled matches Some(taps) ==> taps@.len() == cabinet::IR_LENGTH,
        ensures
            final(self).well_formed(),
            final(self).same_settings(old(self)),
            final(self).elapsed() == old(self).elapsed(),
            committed == (old(self).stage().ready() && levelled is Some),
            final(self).stage().response() == match levelled {
                Some(taps) if old(self).stage().ready() => taps@,
                _ => old(self).stage().response(),
            },
            final(self).stage().fallback() == old(self).stage().fallback(),
            final(self).stage().ready() == old(self).stage().ready(),
            final(self).stage().inputs() == old(self).stage().inputs(),
            final(self).stage().wet() == old(self).stage().wet(),
    {
        self.cabinet.commit_ir(levelled)
    }

    /// Puts the synthesised response back.
    pub fn restore_default_impulse_response(&mut self) -> (restored: bool)
        requires
            old(self).well_formed(),
        ensures
            final(self).well_formed(),
            final(self).same_settings(old(self)),
            final(self).elapsed() == old(self).elapsed(),
            restored == (old(self).ready() && old(self).stage().ready()),
            final(self).stage().response() == if restored {
                old(self).stage().fallback()
            } else {
                old(self).stage().response()
            },
            final(self).stage().fallback() == old(self).stage().fallback(),
            final(self).stage().ready() == old(self).stage().ready(),
            final(self).stage().inputs() == old(self).stage().inputs(),
            final(self).stage().wet() == old(self).stage().wet(),
    {
        if !self.prepared {
            return false;
        }
        self.cabinet.restore_default_ir()
    }

    /// The impulse response the cabinet stage is currently using.
    pub fn impulse_response(&self) -> (taps: &[u32])
        ensures
            taps@ == self.stage().response(),
    {
        self.cabinet.impulse_response()
    }
}

/// Two engines of the same settings differ in their cabinet stage and their clock
/// alone.
pub proof fn law_same_settings(a: AmpEngine, b: AmpEngine, power: PowerState)
    requires
        a.same_settings(&b),
    ensures
        a.ready() == b.ready(),
        a.now().channel == b.now().channel,
        a.now().gain_boost == b.now().gain_boost,
        a.now().global_boost == b.now().global_boost,
        a.now().rail == b.now().rail,
        a.goal(power) == b.goal(power),
        a.wattage() == b.wattage(),
        a.clean_solution() == b.clean_solution(),
        a.dirty_solution() == b.dirty_solution(),
{
}

/// A fresh engine is silent and has nothing to be silent about: no response, no
/// solution, every switch off, the rail down, and not a sample heard.
pub proof fn law_a_fresh_engine(engine: AmpEngine)
    requires
        engine.fresh(),
    ensures
        !engine.ready(),
        !engine.stage().ready(),
        engine.stage().inputs().len() == 0,
        engine.stage().response().len() == 0,
        engine.stage().fallback().len() == 0,
        engine.stage().wet().len() == 64,
        forall|i: int| 0 <= i < 64 ==> #[trigger] engine.stage().wet()[i] == 0,
        engine.elapsed() == 0,
        engine.clean_solution() is None,
        engine.dirty_solution() is None,
        engine.now().channel == 0,
        engine.now().gain_boost == 0,
        engine.now().global_boost == 0,
        engine.now().rail == 0,
        engine.goal(PowerState::Off) == engine.now(),
        engine.goal(PowerState::Standby) == engine.now(),
        engine.wattage() == PowerMode::Watt100,
{
}

impl Default for AmpEngine {
    /// An unprepared engine.
    fn default() -> (engine: Self)
        ensures
            engine.well_formed(),
            engine.fresh(),
    {
        AmpEngine::new()
    }
}

} // verus!
