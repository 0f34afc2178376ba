//! Which control sits where on the faceplate.

use vstd::prelude::*;

use crate::gui::chassis::Cell;
use crate::gui::glyphs::Glyph;
use crate::params;
use crate::params::Parameter;

verus! {

/// What a parameter is operated with.
#[derive(Debug, Clone, Copy, PartialEq, Eq, Structural)]
pub enum Widget {
    /// A knob with this pictogram above it.
    Knob(Glyph),
    /// A two-position bat switch.
    Bat,
    /// A lever with a detent for every position.
    Lever,
}

/// One control on the faceplate.
#[derive(Debug, Clone, Copy, PartialEq, Eq, Structural)]
pub struct Control {
    /// The parameter it operates.
    pub parameter: Parameter,
    /// What it is operated with.
    pub widget: Widget,
    /// The cell it sits in.
    pub cell: Cell,
}

/// The control that operates a parameter.
pub open spec fn control(parameter: Parameter) -> Control {
    match parameter {
        Parameter::Channel => Control { parameter, widget: Widget::Bat, cell: Cell::Switches },
        Parameter::GainBoost => Control { parameter, widget: Widget::Bat, cell: Cell::Switches },
        Parameter::GlobalBoost => Control { parameter, widget: Widget::Bat, cell: Cell::Switches },
        Parameter::CabEnabled => Control { parameter, widget: Widget::Bat, cell: Cell::Switches },
        Parameter::PowerSwitch => Control {
            parameter,
            widget: Widget::Lever,
            cell: Cell::Switches,
        },
        Parameter::OutputPower => Control {
            parameter,
            widget: Widget::Lever,
            cell: Cell::Switches,
        },
        Parameter::CleanVolume => Control {
            parameter,
            widget: Widget::Knob(Glyph::Speaker),
            cell: Cell::Clean,
        },
        Parameter::CleanBass => Control {
            parameter,
            widget: Widget::Knob(Glyph::BassClef),
            cell: Cell::Clean,
        },
        Parameter::CleanTreble => Control {
            parameter,
            widget: Widget::Knob(Glyph::TrebleClef),
            cell: Cell::Clean,
        },
        Parameter::DirtyGain => Control {
            parameter,
            widget: Widget::Knob(Glyph::Burst),
            cell: Cell::Dirty,
        },
        Parameter::DirtyBass => Control {
            parameter,
            widget: Widget::Knob(Glyph::BassClef),
            cell: Cell::Dirty,
        },
        Parameter::DirtyMiddle => Control {
            parameter,
            widget: Widget::Knob(Glyph::SoundWave),
            cell: Cell::Dirty,
        },
        Parameter::DirtyTreble => Control {
            parameter,
            widget: Widget::Knob(Glyph::TrebleClef),
            cell: Cell::Dirty,
        },
        Parameter::DirtyVolume => Control {
            parameter,
            widget: Widget::Knob(Glyph::Speaker),
            cell: Cell::Dirty,
        },
    }
}

/// The parameters in the order their controls are laid out.
pub open spec fn layout() -> Seq<Parameter> {
    seq![
        Parameter::Channel,
        Parameter::GainBoost,
        Parameter::GlobalBoost,
        Parameter::CabEnabled,
        Parameter::PowerSwitch,
        Parameter::OutputPower,
        Parameter::CleanVolume,
        Parameter::CleanBass,
        Parameter::CleanTreble,
        Parameter::DirtyGain,
        Parameter::DirtyBass,
        Parameter::DirtyMiddle,
        Parameter::DirtyTreble,
        Parameter::DirtyVolume,
    ]
}

/// The control that operates a parameter.
pub fn control_for(parameter: Parameter) -> (found: Control)
    ensures
        found == control(parameter),
{
    let widget: Widget = match parameter {
        Parameter::Channel => Widget::Bat,
        Parameter::GainBoost => Widget::Bat,
        Parameter::GlobalBoost => Widget::Bat,
        Parameter::CabEnabled => Widget::Bat,
        Parameter::PowerSwitch => Widget::Lever,
        Parameter::OutputPower => Widget::Lever,
        Parameter::CleanVolume => Widget::Knob(Glyph::Speaker),
        Parameter::CleanBass => Widget::Knob(Glyph::BassClef),
        Parameter::CleanTreble => Widget::Knob(Glyph::TrebleClef),
        Parameter::DirtyGain => Widget::Knob(Glyph::Burst),
        Parameter::DirtyBass => Widget::Knob(Glyph::BassClef),
        Parameter::DirtyMiddle => Widget::Knob(Glyph::SoundWave),
        Parameter::DirtyTreble => Widget::Knob(Glyph::TrebleClef),
        Parameter::DirtyVolume => Widget::Knob(Glyph::Speaker),
    };
    let cell: Cell = match parameter {
        Parameter::CleanVolume => Cell::Clean,
        Parameter::CleanBass => Cell::Clean,
        Parameter::CleanTreble => Cell::Clean,
        Parameter::DirtyGain => Cell::Dirty,
        Parameter::DirtyBass => Cell::Dirty,
        Parameter::DirtyMiddle => Cell::Dirty,
        Parameter::DirtyTreble => Cell::Dirty,
        Parameter::DirtyVolume => Cell::Dirty,
        _ => Cell::Switches,
    };
    Control { parameter, widget, cell }
}

/// Every control of the faceplate, in layout order: the switch cell row by row,
/// then the clean and the dirty cell from left to right.
pub fn build_controls() -> (controls: Vec<Control>)
    ensures
        controls@ == layout().map_values(|p: Parameter| control(p)),
{
    let order: Vec<Parameter> = vec![
        Parameter::Channel,
        Parameter::GainBoost,
        Parameter::GlobalBoost,
        Parameter::CabEnabled,
        Parameter::PowerSwitch,
        Parameter::OutputPower,
        Parameter::CleanVolume,
        Parameter::CleanBass,
        Parameter::CleanTreble,
        Parameter::DirtyGain,
        Parameter::DirtyBass,
        Parameter::DirtyMiddle,
        Parameter::DirtyTreble,
        Parameter::DirtyVolume,
    ];
    assert(order@ =~= layout());
    let mut controls: Vec<Control> = Vec::new();
    let mut i: usize = 0;
    while i < order.len()
        invariant
            i <= order@.len(),
            order@ == layout(),
            controls@ == layout().map_values(|p: Parameter| control(p)).take(i as int),
        decreases order@.len() - i,
    {
        controls.push(control_for(order[i]));
        assert(controls@ =~= layout().map_values(|p: Parameter| control(p)).take(i + 1));
        i = i + 1;
    }
    assert(controls@ =~= layout().map_values(|p: Parameter| control(p)));
    controls
}

/// Caption printed under a switch; knobs carry a pictogram instead.
pub open spec fn caption_text(parameter: Parameter) -> Seq<char> {
    match parameter {
        Parameter::Channel => "CHAN"@,
        Parameter::GainBoost => "BOOST"@,
        Parameter::GlobalBoost => "+3dB"@,
        Parameter::CabEnabled => "CAB"@,
        Parameter::PowerSwitch => "PWR"@,
        Parameter::OutputPower => "WATT"@,
        _ => ""@,
    }
}

/// Caption printed under a switch.
pub fn caption(parameter: Parameter) -> (text: &'static str)
    ensures
        text@ == caption_text(parameter),
{
    match parameter {
        Parameter::Channel => "CHAN",
        Parameter::GainBoost => "BOOST",
        Parameter::GlobalBoost => "+3dB",
        Parameter::CabEnabled => "CAB",
        Parameter::PowerSwitch => "PWR",
        Parameter::OutputPower => "WATT",
        _ => "",
    }
}

/// The pictogram above a knob tells what it does, and its cell which channel it
/// belongs to.
pub proof fn law_pictograms_and_cells(p: Parameter)
    ensures
        control(p).widget == Widget::Knob(Glyph::Speaker) <==> p == Parameter::CleanVolume || p
            == Parameter::DirtyVolume,
        control(p).widget == Widget::Knob(Glyph::BassClef) <==> p == Parameter::CleanBass || p
            == Parameter::DirtyBass,
        control(p).widget == Widget::Knob(Glyph::TrebleClef) <==> p == Parameter::CleanTreble || p
            == Parameter::DirtyTreble,
        control(p).widget == Widget::Knob(Glyph::SoundWave) <==> p == Parameter::DirtyMiddle,
        control(p).widget == Widget::Knob(Glyph::Burst) <==> p == Parameter::DirtyGain,
        control(p).widget == Widget::Lever <==> p == Parameter::PowerSwitch || p
            == Parameter::OutputPower,
        control(p).cell == Cell::Clean <==> p == Parameter::CleanVolume || p
            == Parameter::CleanBass || p == Parameter::CleanTreble,
        control(p).cell == Cell::Dirty <==> p == Parameter::DirtyGain || p == Parameter::DirtyBass
            || p == Parameter::DirtyMiddle || p == Parameter::DirtyTreble || p
            == Parameter::DirtyVolume,
{
}

/// The order on the faceplate: two rows of three switches, then the clean and
/// the dirty knobs from left to right.
pub proof fn law_the_layout()
    ensures
        layout().len() == 14,
        layout()[0] == Parameter::Channel,
        layout()[1] == Parameter::GainBoost,
        layout()[2] == Parameter::GlobalBoost,
        layout()[3] == Parameter::CabEnabled,
        layout()[4] == Parameter::PowerSwitch,
        layout()[5] == Parameter::OutputPower,
        layout()[6] == Parameter::CleanVolume,
        layout()[7] == Parameter::CleanBass,
        layout()[8] == Parameter::CleanTreble,
        layout()[9] == Parameter::DirtyGain,
        layout()[10] == Parameter::DirtyBass,
        layout()[11] == Parameter::DirtyMiddle,
        layout()[12] == Parameter::DirtyTreble,
        layout()[13] == Parameter::DirtyVolume,
{
}

/// What is printed under the switches.
pub proof fn law_switch_captions()
    ensures
        caption_text(Parameter::Channel) == "CHAN"@,
        caption_text(Parameter::GainBoost) == "BOOST"@,
        caption_text(Parameter::GlobalBoost) == "+3dB"@,
        caption_text(Parameter::CabEnabled) == "CAB"@,
        caption_text(Parameter::PowerSwitch) == "PWR"@,
        caption_text(Parameter::OutputPower) == "WATT"@,
{
}

/// Every parameter has exactly one control on the faceplate.
pub proof fn law_every_parameter_has_one_control(p: Parameter)
    ensures
        exists|i: int| 0 <= i < layout().len() && #[trigger] layout()[i] == p,
        forall|i: int, j: int|
            0 <= i < j < layout().len() ==> #[trigger] layout()[i] != #[trigger] layout()[j],
{
    let i: int = match p {
        Parameter::Channel => 0,
        Parameter::GainBoost => 1,
        Parameter::GlobalBoost => 2,
        Parameter::CabEnabled => 3,
        Parameter::PowerSwitch => 4,
        Parameter::OutputPower => 5,
        Parameter::CleanVolume => 6,
        Parameter::CleanBass => 7,
        Parameter::CleanTreble => 8,
        Parameter::DirtyGain => 9,
        Parameter::DirtyBass => 10,
        Parameter::DirtyMiddle => 11,
        Parameter::DirtyTreble => 12,
        Parameter::DirtyVolume => 13,
    };
    assert(layout()[i] == p);
}

/// A continuous parameter gets a knob, one with two positions a bat switch, and
/// one with more a lever; and switches sit in the switch cell.
pub proof fn law_widgets_match_their_parameters(p: Parameter)
    ensures
        control(p).parameter == p,
        control(p).widget is Knob <==> params::steps(p) is None,
        control(p).widget == Widget::Bat <==> params::steps(p) == Some(1usize),
        control(p).widget == Widget::Lever <==> (params::steps(p) matches Some(n) && n > 1),
        control(p).cell == Cell::Switches <==> params::steps(p) is Some,
{
}

} // verus!
