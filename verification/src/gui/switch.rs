//! Metal toggle hardware: bat switches and multi-position levers.

use vstd::arithmetic::{div_mod, power2};
use vstd::prelude::*;

use crate::dsp::filters;
use crate::dsp::filters::{Direction, ONE};
use crate::ieee;

verus! {

/// The number one half.
pub const HALF: u32 = 0x3F00_0000;

/// Whether a switch at this normalized value is engaged: at or above the
/// midpoint.
pub open spec fn engaged(normalized: u32) -> bool {
    !ieee::not_a_number(normalized) && ieee::units(normalized) >= ieee::units(HALF)
}

/// Whether a bat switch at this normalized value is engaged.
pub fn is_engaged(normalized: u32) -> (yes: bool)
    ensures
        yes == engaged(normalized),
        normalized < 0x7F80_0000 ==> yes == (normalized >= 0x3F00_0000),
{
    proof {
        if normalized < HALF {
            ieee::lemma_units_increase(normalized as int, HALF as int);
        }
        if HALF < normalized < ieee::INFINITY {
            ieee::lemma_units_increase(HALF as int, normalized as int);
        }
    }
    normalized % ieee::SIGN <= ieee::INFINITY && !ieee::is_below(normalized, HALF)
}

/// The normalized value a press sets a bat switch to: the other position.
pub fn toggled(normalized: u32) -> (value: u32)
    ensures
        value == filters::weight(!engaged(normalized)),
{
    if is_engaged(normalized) {
        0
    } else {
        ONE
    }
}

/// Pressing a bat switch twice brings it back.
pub proof fn law_two_presses_undo_each_other(normalized: u32)
    ensures
        engaged(filters::weight(!engaged(normalized))) == !engaged(normalized),
        filters::weight(!engaged(filters::weight(!engaged(normalized)))) == filters::weight(
            engaged(normalized),
        ),
{
    ieee::lemma_units_increase(0, HALF as int);
    ieee::lemma_units_increase(HALF as int, ONE as int);
    assert(ieee::magnitude(HALF) == HALF);
    assert(ieee::magnitude(ONE) == ONE);
}

/// Detents of a lever: one more than the steps of its parameter, and two for a
/// parameter without steps.
pub fn positions(step_count: Option<usize>) -> (count: usize)
    requires
        step_count != Some(usize::MAX),
    ensures
        count == match step_count {
            Some(steps) if steps > 1 => steps + 1,
            _ => 2,
        },
{
    match step_count {
        Some(steps) => if steps > 1 {
            steps + 1
        } else {
            2
        },
        None => 2,
    }
}

/// The lever goes to the detent nearest to the position: no whole number is
/// closer to it, and of two that are as close it is the upper one.
pub proof fn law_the_nearest_detent(position: u32, other: int)
    requires
        !ieee::not_a_number(position),
    ensures
        ieee::apart(rounded_half_up(position) * power2::pow2(149), ieee::units(position))
            <= ieee::apart(other * power2::pow2(149), ieee::units(position)),
        other > rounded_half_up(position) ==> ieee::apart(
            rounded_half_up(position) * power2::pow2(149),
            ieee::units(position),
        ) < ieee::apart(other * power2::pow2(149), ieee::units(position)),
{
    let one = power2::pow2(149) as int;
    let units = ieee::units(position);
    let index = rounded_half_up(position);
    power2::lemma_pow2_pos(149);
    div_mod::lemma_fundamental_div_mod(2 * units + one, 2 * one);
    let rest = (2 * units + one) % (2 * one);
    div_mod::lemma_mod_bound(2 * units + one, 2 * one);
    assert((2 * one) * index == 2 * (index * one)) by (nonlinear_arith);
    if other > index {
        assert(other * one >= index * one + one) by (nonlinear_arith)
            requires
                other >= index + 1,
                one > 0,
        ;
    } else if other < index {
        assert(other * one <= index * one - one) by (nonlinear_arith)
            requires
                other <= index - 1,
                one > 0,
        ;
    }
}

/// Which way a scroll moves a lever.
pub fn scroll(vertical: u32) -> (direction: Direction)
    ensures
        direction == filters::heading(0, vertical),
{
    filters::direction_of(0, vertical)
}

/// The whole number nearest to a number, halves going up.
pub open spec fn rounded_half_up(bits: u32) -> int {
    (2 * ieee::units(bits) + power2::pow2(149)) / (2 * power2::pow2(149) as int)
}

/// The detent at `position`, a number so large that it is whole.
fn whole_detent(position: u32, positions: usize) -> (index: usize)
    requires
        2 <= positions,
        150 * ieee::EXPONENT_STEP <= position <= ieee::INFINITY,
    ensures
        index == if rounded_half_up(position) < positions {
            rounded_half_up(position)
        } else {
            positions - 1
        },
{
    let shift: u32 = position / ieee::EXPONENT_STEP - 150;
    let significand: u32 = position % ieee::EXPONENT_STEP + ieee::EXPONENT_STEP;
    let ghost whole = significand * power2::pow2(shift as nat);
    proof {
        let one = power2::pow2(149) as int;
        assert(ieee::magnitude(position) == position);
        ieee::lemma_packed_units((shift + 149) as nat, significand as int);
        power2::lemma_pow2_adds(shift as nat, 149);
        power2::lemma_pow2_pos(149);
        let scale = power2::pow2(shift as nat) as int;
        assert(significand * (scale * one) == (significand * scale) * one) by (nonlinear_arith);
        assert(2 * (whole * one) + one == whole * (2 * one) + one) by (nonlinear_arith);
        div_mod::lemma_fundamental_div_mod_converse(
            2 * ieee::units(position) + one,
            2 * one,
            whole,
            one,
        );
        assert(rounded_half_up(position) == whole);
        power2::lemma2_to64();
        power2::lemma2_to64_rest();
    }
    if shift >= 64 {
        proof {
            if shift > 64 {
                power2::lemma_pow2_strictly_increases(64, shift as nat);
            }
            let scale = power2::pow2(shift as nat) as int;
            assert(significand * scale >= scale) by (nonlinear_arith)
                requires
                    significand >= 1,
                    scale >= 0,
            ;
        }
        return positions - 1;
    }
    let mut value: u128 = significand as u128;
    let mut doubled: u32 = 0;
    proof {
        assert(significand * power2::pow2(0) == significand) by (nonlinear_arith)
            requires
                power2::pow2(0) == 1,
        ;
    }
    while doubled < shift
        invariant
            doubled <= shift < 64,
            significand < 0x100_0000,
            value == significand * power2::pow2(doubled as nat),
        decreases shift - doubled,
    {
        proof {
            let scale = power2::pow2(doubled as nat) as int;
            power2::lemma2_to64_rest();
            power2::lemma_pow2_strictly_increases(doubled as nat, 64);
            power2::lemma_pow2_unfold((doubled + 1) as nat);
            assert(significand * scale < 0x100_0000 * 0x1_0000_0000_0000_0000) by (nonlinear_arith)
                requires
                    0 <= significand < 0x100_0000,
                    0 <= scale < 0x1_0000_0000_0000_0000,
            ;
            assert(significand * (2 * scale) == 2 * (significand * scale)) by (nonlinear_arith);
        }
        value = value * 2;
        doubled = doubled + 1;
    }
    if value < positions as u128 {
        value as usize
    } else {
        positions - 1
    }
}

/// The detent nearest to `position`, a number counted in detents from the
/// bottom of the lever.
///
/// A position below the bottom or that is no number selects the bottom detent,
/// one past the top the top detent.
pub fn detent(position: u32, positions: usize) -> (index: usize)
    requires
        2 <= positions,
    ensures
        index < positions,
        ieee::negative(position) || ieee::not_a_number(position) ==> index == 0,
        !ieee::negative(position) && !ieee::not_a_number(position) ==> index == if rounded_half_up(
            position,
        ) < positions {
            rounded_half_up(position)
        } else {
            positions - 1
        },
{
    let last: usize = positions - 1;
    if position > ieee::INFINITY {
        return 0;
    }
    let ghost one = power2::pow2(149) as int;
    let ghost units = ieee::units(position);
    proof {
        power2::lemma2_to64();
        power2::lemma_pow2_strictly_increases(24, 149);
        assert(ieee::magnitude(position) == position);
    }
    let exponent: u32 = position / ieee::EXPONENT_STEP;
    if exponent >= 150 {
        return whole_detent(position, positions);
    }
    if exponent == 0 {
        proof {
            div_mod::lemma_basic_div(2 * units + one, 2 * one);
        }
        return 0;
    }
    let doubled: u32 = position + ieee::EXPONENT_STEP;
    let twice: u32 = ieee::to_integer(doubled);
    proof {
        let significand = position as int % 0x80_0000 + 0x80_0000;
        ieee::lemma_packed_units((exponent - 1) as nat, significand);
        ieee::lemma_packed_units(exponent as nat, significand);
        power2::lemma_pow2_unfold(exponent as nat);
        let half = power2::pow2((exponent - 1) as nat) as int;
        assert(significand * (2 * half) == 2 * (significand * half)) by (nonlinear_arith);
        assert(ieee::magnitude(doubled) == doubled);
        assert(ieee::units(doubled) == 2 * units);
        ieee::lemma_packed_units(150, 0x80_0000);
        ieee::lemma_units_increase(doubled as int, 0x4B80_0000);
        power2::lemma_pow2_unfold(150);
        div_mod::lemma_div_multiples_vanish(0x100_0000, one);
        div_mod::lemma_div_is_ordered(2 * units, one * 0x100_0000, one);
        assert(twice == (2 * units) / one);
        div_mod::lemma_hoist_over_denominator(2 * units, 1, one as nat);
        div_mod::lemma_div_denominator(2 * units + one, one, 2);
    }
    let nearest: usize = ((twice + 1) / 2) as usize;
    if nearest < positions {
        nearest
    } else {
        last
    }
}

} // verus!
