//! The pictograms of the "Pics Only" faceplate.

use vstd::prelude::*;

verus! {

/// The pictograms available on the faceplate.
#[derive(Debug, Clone, Copy, PartialEq, Eq, Structural)]
pub enum Glyph {
    /// Speaker cone with radiating waves: the Volume controls.
    Speaker,
    /// F-clef: the Bass controls.
    BassClef,
    /// G-clef: the Treble controls.
    TrebleClef,
    /// Travelling waveform: the Middle control.
    SoundWave,
    /// Radiating burst: the Gain control.
    Burst,
}

/// Corners of the burst, alternating between points and notches.
pub const BURST_CORNERS: u32 = 16;

/// Distance of a burst corner from the centre, in hundredths of the glyph's
/// side.
pub fn burst_radius(corner: u32) -> (hundredths: u32)
    ensures
        hundredths == if corner % 2 == 0 {
            48u32
        } else {
            19
        },
        hundredths < 50,
{
    if corner % 2 == 0 {
        48
    } else {
        19
    }
}

} // verus!
