//! The switch ramp shared by every control that would otherwise click.

use vstd::prelude::*;

use crate::ieee;

verus! {

/// The number one.
pub const ONE: u32 = 0x3F80_0000;

/// Which way a ramp moves.
#[derive(Debug, Clone, Copy, PartialEq, Eq, Structural)]
pub enum Direction {
    /// Towards larger weights.
    Up,
    /// Towards smaller weights.
    Down,
    /// It has arrived.
    Hold,
}

/// Linear crossfade weight in `0.0..=1.0` for a switch.
///
/// The ramp knows where it is and where it is going. Stepping is the caller's
/// arithmetic; the ramp says in which direction, and never lets a step past the
/// target.
#[derive(Debug, Clone, Copy, PartialEq, Eq)]
pub struct SwitchRamp {
    current: u32,
    target: u32,
}

/// The weight of a settled switch.
pub open spec fn weight(engaged: bool) -> u32 {
    if engaged {
        ONE
    } else {
        0
    }
}

/// Which way leads from `current` to `target`.
pub open spec fn heading(current: u32, target: u32) -> Direction {
    if ieee::below(current, target) {
        Direction::Up
    } else if ieee::below(target, current) {
        Direction::Down
    } else {
        Direction::Hold
    }
}

/// Where a step that reached for `moved` ends: at `moved`, or at `target` where
/// `moved` lies past it or is no number.
pub open spec fn arrived(current: u32, target: u32, moved: u32) -> u32 {
    match heading(current, target) {
        Direction::Up => if ieee::below(moved, target) {
            moved
        } else {
            target
        },
        Direction::Down => if ieee::below(target, moved) {
            moved
        } else {
            target
        },
        Direction::Hold => current,
    }
}

/// The smaller of a step and its target.
fn no_further_up(moved: u32, target: u32) -> (held: u32)
    ensures
        held == if ieee::below(moved, target) {
            moved
        } else {
            target
        },
{
    if ieee::is_below(moved, target) {
        moved
    } else {
        target
    }
}

/// The larger of a step and its target.
fn no_further_down(moved: u32, target: u32) -> (held: u32)
    ensures
        held == if ieee::below(target, moved) {
            moved
        } else {
            target
        },
{
    if ieee::is_below(target, moved) {
        moved
    } else {
        target
    }
}

/// Which way leads from `current` to `target`.
pub fn direction_of(current: u32, target: u32) -> (direction: Direction)
    ensures
        direction == heading(current, target),
{
    if ieee::is_below(current, target) {
        Direction::Up
    } else if ieee::is_below(target, current) {
        Direction::Down
    } else {
        Direction::Hold
    }
}

/// Ends a step from `current` that reached for `moved`.
pub fn arrive_at(current: u32, target: u32, moved: u32) -> (next: u32)
    ensures
        next == arrived(current, target, moved),
{
    match direction_of(current, target) {
        Direction::Up => no_further_up(moved, target),
        Direction::Down => no_further_down(moved, target),
        Direction::Hold => current,
    }
}

impl SwitchRamp {
    /// Where the ramp is.
    pub closed spec fn position(&self) -> u32 {
        self.current
    }

    /// Where it is going.
    pub closed spec fn goal(&self) -> u32 {
        self.target
    }

    /// A ramp settled at `initial`.
    pub fn prepare(initial: bool) -> (ramp: Self)
        ensures
            ramp.position() == weight(initial),
            ramp.goal() == weight(initial),
    {
        let settled: u32 = if initial {
            ONE
        } else {
            0
        };
        SwitchRamp { current: settled, target: settled }
    }

    /// Requests a new switch position.
    pub fn set(&mut self, engaged: bool)
        ensures
            final(self).goal() == weight(engaged),
            final(self).position() == old(self).position(),
    {
        self.target = if engaged {
            ONE
        } else {
            0
        };
    }

    /// Which way the next step goes.
    pub fn direction(&self) -> (direction: Direction)
        ensures
            direction == heading(self.position(), self.goal()),
    {
        direction_of(self.current, self.target)
    }

    /// Ends a step that reached for `moved`, and returns the weight.
    pub fn advance(&mut self, moved: u32) -> (current: u32)
        ensures
            final(self).position() == arrived(old(self).position(), old(self).goal(), moved),
            final(self).goal() == old(self).goal(),
            current == final(self).position(),
    {
        self.current = arrive_at(self.current, self.target, moved);
        self.current
    }

    /// Current weight without advancing.
    pub fn value(&self) -> (current: u32)
        ensures
            current == self.position(),
    {
        self.current
    }

    /// True when the ramp has fully settled at `0.0`.
    pub fn is_fully_off(&self) -> (off: bool)
        ensures
            off == (!ieee::not_a_number(self.position()) && ieee::units(self.position()) <= 0
                && !ieee::not_a_number(self.goal()) && ieee::units(self.goal()) <= 0),
    {
        proof {
            assert(ieee::units(0) == 0);
        }
        let position_off: bool = self.current % ieee::SIGN <= ieee::INFINITY && !ieee::is_below(
            0,
            self.current,
        );
        let goal_off: bool = self.target % ieee::SIGN <= ieee::INFINITY && !ieee::is_below(
            0,
            self.target,
        );
        position_off && goal_off
    }
}

impl Default for SwitchRamp {
    /// A ramp settled at off.
    fn default() -> (ramp: Self)
        ensures
            ramp.position() == 0,
            ramp.goal() == 0,
    {
        SwitchRamp { current: 0, target: 0 }
    }
}

/// A ramp never leaves the stretch between where it is and where it is going,
/// as long as steps go the way it says.
pub proof fn law_a_ramp_never_overshoots(current: u32, target: u32, moved: u32)
    requires
        ieee::finite(current),
        ieee::finite(target),
        heading(current, target) == Direction::Up && !ieee::not_a_number(moved) ==> ieee::units(
            current,
        ) <= ieee::units(moved),
        heading(current, target) == Direction::Down && !ieee::not_a_number(moved) ==> ieee::units(
            moved,
        ) <= ieee::units(current),
    ensures
        ieee::units(current) <= ieee::units(target) ==> ieee::units(current) <= ieee::units(
            arrived(current, target, moved),
        ) <= ieee::units(target),
        ieee::units(target) <= ieee::units(current) ==> ieee::units(target) <= ieee::units(
            arrived(current, target, moved),
        ) <= ieee::units(current),
{
}

/// A ramp moves towards its target: up where the target is larger, down where it
/// is smaller, and not at all once it is there.
pub proof fn law_a_ramp_heads_for_its_target(current: u32, target: u32)
    requires
        !ieee::not_a_number(current),
        !ieee::not_a_number(target),
    ensures
        heading(current, target) == Direction::Up <==> ieee::units(current) < ieee::units(target),
        heading(current, target) == Direction::Down <==> ieee::units(current) > ieee::units(
            target,
        ),
        heading(current, target) == Direction::Hold <==> ieee::units(current) == ieee::units(
            target,
        ),
{
}

/// A step that stays short of the target is taken as it is, so that a switch
/// fades rather than clicks; one that reaches past it ends exactly there.
pub proof fn law_a_short_step_is_taken(current: u32, target: u32, moved: u32)
    requires
        !ieee::not_a_number(current),
        !ieee::not_a_number(target),
        !ieee::not_a_number(moved),
    ensures
        ieee::units(current) < ieee::units(target) && ieee::units(moved) < ieee::units(target)
            ==> arrived(current, target, moved) == moved,
        ieee::units(current) > ieee::units(target) && ieee::units(moved) > ieee::units(target)
            ==> arrived(current, target, moved) == moved,
        ieee::units(current) < ieee::units(target) && ieee::units(moved) >= ieee::units(target)
            ==> arrived(current, target, moved) == target,
        ieee::units(current) > ieee::units(target) && ieee::units(moved) <= ieee::units(target)
            ==> arrived(current, target, moved) == target,
{
}

/// A settled switch is at zero when off and at one when on.
pub proof fn law_a_switch_is_all_or_nothing()
    ensures
        weight(false) == 0,
        weight(true) == 0x3F80_0000,
{
}

/// A ramp that has arrived stays.
pub proof fn law_a_settled_ramp_stays(target: u32, moved: u32)
    ensures
        arrived(target, target, moved) == target,
{
}

} // verus!
