//! Denormal and NaN/Inf protection primitives.
//!
//! Recursive structures decay exponentially towards zero, and once their state
//! enters the subnormal range the processor slows down by orders of magnitude.
//! [`DenormalGuard`] works out the control words that make the hardware flush
//! subnormals; [`flush`] and [`sanitize`] are the software fallbacks, and
//! contain NaN and infinities, which the hardware does not.

use vstd::prelude::*;

use crate::ieee;

verus! {

/// Any magnitude below this (`1e-20`) is treated as silence by [`flush`].
pub const DENORMAL_THRESHOLD: u32 = 0x1E3C_E508;

/// Largest magnitude of normalized audio: 32.0, about +30 dBFS.
pub const AUDIO_LIMIT: u32 = 0x4200_0000;

/// Largest magnitude, in volts, any node inside the amplifier may reach: 600.0.
pub const VOLTAGE_LIMIT: u32 = 0x4416_0000;

/// Bit 15 of the control word: flush-to-zero for arithmetic *results*.
pub const FTZ: u32 = 0x8000;

/// Bit 6 of the control word: denormals-are-zero for arithmetic *operands*.
pub const DAZ: u32 = 0x0040;

/// The control word a thread had before flushing was enabled.
#[derive(Debug)]
pub struct DenormalGuard {
    previous_mxcsr: u32,
}

impl DenormalGuard {
    /// The control word in force before.
    pub closed spec fn previous(&self) -> u32 {
        self.previous_mxcsr
    }

    /// Starts from the control word in force.
    pub fn new(control_word: u32) -> (guard: Self)
        ensures
            guard.previous() == control_word,
    {
        DenormalGuard { previous_mxcsr: control_word }
    }

    /// The control word to set while the guard lives: as before, with both
    /// flushing bits set.
    pub fn engaged(&self) -> (word: u32)
        ensures
            word == self.previous() | FTZ | DAZ,
            word & FTZ == FTZ,
            word & DAZ == DAZ,
            word & !(FTZ | DAZ) == self.previous() & !(FTZ | DAZ),
    {
        let before: u32 = self.previous_mxcsr;
        proof {
            assert((before | 0x8000 | 0x0040) & 0x8000 == 0x8000) by (bit_vector);
            assert((before | 0x8000 | 0x0040) & 0x0040 == 0x0040) by (bit_vector);
            assert((before | 0x8000 | 0x0040) & !(0x8000u32 | 0x0040) == before & !(0x8000u32
                | 0x0040)) by (bit_vector);
        }
        before | FTZ | DAZ
    }

    /// The control word to set when the guard goes: exactly the one before.
    pub fn restored(&self) -> (word: u32)
        ensures
            word == self.previous(),
    {
        self.previous_mxcsr
    }
}

/// What [`flush`] makes of a number.
pub open spec fn flushed(x: u32) -> u32 {
    if ieee::magnitude_units(ieee::magnitude(x)) < ieee::magnitude_units(DENORMAL_THRESHOLD as int)
    {
        0
    } else {
        x
    }
}

/// Flushes magnitudes below [`DENORMAL_THRESHOLD`] to exactly zero.
///
/// Used on the state of every recursive filter so that the plugin behaves
/// identically where the hardware does not flush.
pub fn flush(x: u32) -> (y: u32)
    ensures
        y == flushed(x),
        x % 0x8000_0000 < 0x1E3C_E508 ==> y == 0,
        x % 0x8000_0000 >= 0x1E3C_E508 ==> y == x,
{
    let size: u32 = x % ieee::SIGN;
    proof {
        if size < DENORMAL_THRESHOLD {
            ieee::lemma_units_increase(size as int, DENORMAL_THRESHOLD as int);
        }
        if DENORMAL_THRESHOLD < size {
            ieee::lemma_units_increase(DENORMAL_THRESHOLD as int, size as int);
        }
    }
    if size < DENORMAL_THRESHOLD {
        0
    } else {
        x
    }
}

/// `x` held between `-limit` and `limit`, and zero in place of what is no
/// number.
pub open spec fn contained(x: u32, limit: u32) -> u32 {
    if ieee::finite(x) {
        ieee::clamped(x, (ieee::SIGN + limit) as u32, limit)
    } else {
        0
    }
}

/// Contains `x` within `limit`.
fn contain(x: u32, limit: u32) -> (y: u32)
    requires
        limit < ieee::INFINITY,
    ensures
        y == contained(x, limit),
{
    if ieee::is_finite(x) {
        ieee::clamp(x, ieee::SIGN + limit, limit)
    } else {
        0
    }
}

/// Replaces `NaN` and infinities with zero and hard-limits the magnitude of
/// normalized audio to [`AUDIO_LIMIT`].
///
/// Every stage boundary passes through this, so a numerical blow-up is
/// contained to the sample it occurred on.
pub fn sanitize(x: u32) -> (y: u32)
    ensures
        y == contained(x, AUDIO_LIMIT),
        x % 0x8000_0000 >= 0x7F80_0000 ==> y == 0,
        x % 0x8000_0000 <= 0x4200_0000 ==> y == x,
        0x4200_0000 < x < 0x7F80_0000 ==> y == 0x4200_0000,
        0xC200_0000 < x < 0xFF80_0000 ==> y == 0xC200_0000,
{
    proof {
        lemma_contained_by_pattern(x, AUDIO_LIMIT);
    }
    contain(x, AUDIO_LIMIT)
}

/// [`sanitize`] for signals expressed in real circuit volts, bounded by
/// [`VOLTAGE_LIMIT`] so a triode driven into cutoff can present its full plate
/// swing.
pub fn sanitize_volts(x: u32) -> (y: u32)
    ensures
        y == contained(x, VOLTAGE_LIMIT),
        x % 0x8000_0000 >= 0x7F80_0000 ==> y == 0,
        x % 0x8000_0000 <= 0x4416_0000 ==> y == x,
        0x4416_0000 < x < 0x7F80_0000 ==> y == 0x4416_0000,
        0xC416_0000 < x < 0xFF80_0000 ==> y == 0xC416_0000,
{
    proof {
        lemma_contained_by_pattern(x, VOLTAGE_LIMIT);
    }
    contain(x, VOLTAGE_LIMIT)
}

/// What a stage boundary does to a pattern: nothing to one within the limit, the
/// limit of its sign in place of one beyond, and silence in place of what is
/// infinite or no number.
proof fn lemma_contained_by_pattern(x: u32, limit: u32)
    requires
        0 < limit < ieee::INFINITY,
    ensures
        x % 0x8000_0000 >= 0x7F80_0000 ==> contained(x, limit) == 0,
        x % 0x8000_0000 <= limit ==> contained(x, limit) == x,
        limit < x < 0x7F80_0000 ==> contained(x, limit) == limit,
        0x8000_0000 + limit < x < 0xFF80_0000 ==> contained(x, limit) == 0x8000_0000 + limit,
{
    let low = (ieee::SIGN + limit) as u32;
    let size = ieee::magnitude(x);
    assert(ieee::magnitude(low) == limit);
    assert(ieee::magnitude(limit) == limit);
    ieee::lemma_units_increase(0, limit as int);
    if size > 0 {
        ieee::lemma_units_increase(0, size);
    }
    if size < limit {
        ieee::lemma_units_increase(size, limit as int);
    }
    if limit < size {
        ieee::lemma_units_increase(limit as int, size);
    }
}

/// What lies beyond the limit becomes the limit of its sign, and what is
/// infinite or no number becomes silence.
pub proof fn law_contained_cuts_at_the_limit(x: u32, limit: u32)
    requires
        0 < limit < ieee::INFINITY,
    ensures
        ieee::finite(x) && ieee::units(x) > ieee::units(limit) ==> contained(x, limit) == limit,
        ieee::finite(x) && ieee::units(x) < -ieee::units(limit) ==> contained(x, limit)
            == 0x8000_0000 + limit,
        !ieee::finite(x) ==> contained(x, limit) == 0,
{
    assert(ieee::magnitude((ieee::SIGN + limit) as u32) == limit);
    ieee::lemma_units_increase(0, limit as int);
}

/// What leaves a stage boundary is a number within the limit, and a second
/// boundary does not change it.
pub proof fn law_contained_is_bounded(x: u32, limit: u32)
    requires
        limit < ieee::INFINITY,
    ensures
        ieee::finite(contained(x, limit)),
        -ieee::units(limit) <= ieee::units(contained(x, limit)) <= ieee::units(limit),
        contained(contained(x, limit), limit) == contained(x, limit),
{
    let low = (ieee::SIGN + limit) as u32;
    assert(ieee::magnitude(low) == limit);
    if limit > 0 {
        ieee::lemma_units_increase(0, limit as int);
    }
}

/// A number already within the limit passes through untouched.
pub proof fn law_contained_keeps_what_fits(x: u32, limit: u32)
    requires
        limit < ieee::INFINITY,
        ieee::finite(x),
        -ieee::units(limit) <= ieee::units(x) <= ieee::units(limit),
    ensures
        contained(x, limit) == x,
{
    assert(ieee::magnitude((ieee::SIGN + limit) as u32) == limit);
}

/// Flushing leaves nothing between zero and the threshold, and doing it twice
/// is doing it once.
pub proof fn law_flush_leaves_no_subnormal(x: u32)
    ensures
        flushed(flushed(x)) == flushed(x),
        flushed(x) == 0 || ieee::magnitude(flushed(x)) >= DENORMAL_THRESHOLD,
        ieee::magnitude(x) >= DENORMAL_THRESHOLD ==> flushed(x) == x,
{
    if DENORMAL_THRESHOLD < ieee::magnitude(x) {
        ieee::lemma_units_increase(DENORMAL_THRESHOLD as int, ieee::magnitude(x));
    }
    if ieee::magnitude(x) < DENORMAL_THRESHOLD {
        ieee::lemma_units_increase(ieee::magnitude(x), DENORMAL_THRESHOLD as int);
    }
    ieee::lemma_units_increase(0, DENORMAL_THRESHOLD as int);
}

} // verus!
