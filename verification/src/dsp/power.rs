//! The output power switching matrix.

use vstd::prelude::*;

verus! {

/// Output power modes.
#[derive(Debug, Clone, Copy, PartialEq, Eq, Structural)]
pub enum PowerMode {
    /// 4 tubes, 480 V rail.
    Watt100,
    /// 4 tubes, rail stepped down to 340 V.
    Watt70,
    /// 2 tubes (inner pair disabled), 480 V rail.
    Watt50,
    /// 2 tubes, rail stepped down to 340 V.
    Watt30,
}

/// Reference plate voltage the drive normalization is calibrated against, in
/// volts: the 100 W mode's nominal rail, so that mode needs no correction.
pub const REFERENCE_B_PLUS: u32 = 480;

/// Tubes, rail voltage and rated power of a mode.
pub open spec fn matrix(mode: PowerMode) -> (u32, u32, u32) {
    match mode {
        PowerMode::Watt100 => (4, 480, 100),
        PowerMode::Watt70 => (4, 340, 70),
        PowerMode::Watt50 => (2, 480, 50),
        PowerMode::Watt30 => (2, 340, 30),
    }
}

impl PowerMode {
    /// Number of EL34s conducting in this mode.
    pub fn active_tubes(self) -> (tubes: u32)
        ensures
            tubes == matrix(self).0,
            tubes == 4 <==> self == PowerMode::Watt100 || self == PowerMode::Watt70,
            tubes == 2 <==> self == PowerMode::Watt50 || self == PowerMode::Watt30,
    {
        match self {
            PowerMode::Watt100 | PowerMode::Watt70 => 4,
            PowerMode::Watt50 | PowerMode::Watt30 => 2,
        }
    }

    /// Nominal `B+` rail voltage for this mode.
    pub fn nominal_b_plus(self) -> (volts: u32)
        ensures
            volts == matrix(self).1,
            volts == 480 <==> self == PowerMode::Watt100 || self == PowerMode::Watt50,
            volts == 340 <==> self == PowerMode::Watt70 || self == PowerMode::Watt30,
    {
        match self {
            PowerMode::Watt100 | PowerMode::Watt50 => 480,
            PowerMode::Watt70 | PowerMode::Watt30 => 340,
        }
    }

    /// Nameplate output power in watts.
    pub fn rated_watts(self) -> (watts: u32)
        ensures
            watts == matrix(self).2,
            watts == 100 <==> self == PowerMode::Watt100,
            watts == 70 <==> self == PowerMode::Watt70,
            watts == 50 <==> self == PowerMode::Watt50,
            watts == 30 <==> self == PowerMode::Watt30,
    {
        match self {
            PowerMode::Watt100 => 100,
            PowerMode::Watt70 => 70,
            PowerMode::Watt50 => 50,
            PowerMode::Watt30 => 30,
        }
    }
}

/// A mode is told by its tubes and its rail, and on the same rail fewer tubes
/// mean less power, as on the same tubes a lower rail does.
pub proof fn law_power_follows_tubes_and_rail(a: PowerMode, b: PowerMode)
    ensures
        matrix(a).0 == matrix(b).0 && matrix(a).1 == matrix(b).1 ==> a == b,
        matrix(a).0 <= matrix(b).0 && matrix(a).1 <= matrix(b).1 ==> matrix(a).2 <= matrix(b).2,
{
}

} // verus!
