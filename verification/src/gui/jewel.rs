//! The amber pilot jewel.

use vstd::prelude::*;

use crate::ieee;

verus! {

/// Brightness (`0.02`) up to which the jewel is drawn as cold glass.
pub const DARK_THRESHOLD: u32 = 0x3CA3_D70A;

/// Whether the lamp is lit enough to cast a halo.
pub fn is_lit(brightness: u32) -> (lit: bool)
    ensures
        lit == ieee::below(DARK_THRESHOLD, brightness),
        brightness < 0x7F80_0000 ==> lit == (brightness > 0x3CA3_D70A),
{
    proof {
        if brightness < DARK_THRESHOLD {
            ieee::lemma_units_increase(brightness as int, DARK_THRESHOLD as int);
        }
        if DARK_THRESHOLD < brightness < ieee::INFINITY {
            ieee::lemma_units_increase(DARK_THRESHOLD as int, brightness as int);
        }
    }
    ieee::is_below(DARK_THRESHOLD, brightness)
}

} // verus!
