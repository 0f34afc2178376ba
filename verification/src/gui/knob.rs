//! What a gesture on a knob means.
//!
//! A host wants every change of a parameter wrapped between a begin and an end,
//! so that it can record automation. [`Knob::event`] turns pointer events into
//! that sequence.

use vstd::arithmetic::power2;
use vstd::prelude::*;

use crate::ieee;

verus! {

/// Number of engraved index ticks around each knob.
pub const TICK_COUNT: u32 = 11;

/// Vertical pixels of drag corresponding to the full control range.
pub const DRAG_RANGE_PX: u32 = 220;

/// Fine adjustment, while shift is held, is slower by this factor.
pub const FINE_DRAG_DIVISOR: u32 = 5;

/// Total rotation of the pointer, in degrees.
pub const SWEEP_DEGREES: u32 = 270;

/// Something that happened to a knob.
#[derive(Debug, Clone, Copy, PartialEq, Eq, Structural)]
pub enum KnobEvent {
    /// The left button went down, or was clicked a third time.
    Press {
        /// Whether the command modifier was held.
        command: bool,
    },
    /// A double click, or the right button went down.
    Reset,
    /// The left button went up.
    Release,
    /// The pointer moved.
    Move,
    /// The wheel moved by this many whole lines since the last step.
    Scroll {
        /// Lines, positive upwards.
        lines: i32,
    },
}

/// Something to do about it.
#[derive(Debug, Clone, Copy, PartialEq, Eq, Structural)]
pub enum KnobAction {
    /// Tell the host that a change begins.
    Begin,
    /// Tell the host that the change is over.
    End,
    /// Set the parameter to its default.
    SetDefault,
    /// Take the pointer, and note where the drag starts and from which value.
    Capture,
    /// Let go of the pointer.
    LetGo,
    /// Set the parameter from where the pointer is.
    Drag,
    /// Move the parameter by this many steps.
    Step {
        /// Steps, positive upwards.
        lines: i32,
    },
}

/// What a knob remembers between events.
#[derive(Debug, Clone, Copy, PartialEq, Eq, Structural)]
pub struct Knob {
    drag_active: bool,
}

/// The actions for an event, on a knob that is being dragged or not.
pub open spec fn actions(dragging: bool, event: KnobEvent) -> Seq<KnobAction> {
    match event {
        KnobEvent::Press { command } => if command {
            seq![KnobAction::Begin, KnobAction::SetDefault, KnobAction::End]
        } else {
            seq![KnobAction::Capture, KnobAction::Begin]
        },
        KnobEvent::Reset => if dragging {
            seq![
                KnobAction::LetGo,
                KnobAction::End,
                KnobAction::Begin,
                KnobAction::SetDefault,
                KnobAction::End,
            ]
        } else {
            seq![KnobAction::Begin, KnobAction::SetDefault, KnobAction::End]
        },
        KnobEvent::Release => if dragging {
            seq![KnobAction::LetGo, KnobAction::End]
        } else {
            seq![]
        },
        KnobEvent::Move => if dragging {
            seq![KnobAction::Drag]
        } else {
            seq![]
        },
        KnobEvent::Scroll { lines } => if lines != 0 {
            seq![KnobAction::Begin, KnobAction::Step { lines }, KnobAction::End]
        } else {
            seq![]
        },
    }
}

/// Whether the knob is being dragged after an event.
pub open spec fn dragging_after(dragging: bool, event: KnobEvent) -> bool {
    match event {
        KnobEvent::Press { command } => dragging || !command,
        KnobEvent::Reset => false,
        KnobEvent::Release => false,
        KnobEvent::Move => dragging,
        KnobEvent::Scroll { .. } => dragging,
    }
}

/// Whether the knob keeps an event to itself.
pub open spec fn consumes(dragging: bool, event: KnobEvent) -> bool {
    match event {
        KnobEvent::Release => dragging,
        KnobEvent::Move => false,
        _ => true,
    }
}

impl Knob {
    /// Whether the knob is being dragged.
    pub closed spec fn dragging(&self) -> bool {
        self.drag_active
    }

    /// A knob at rest.
    pub fn new() -> (knob: Self)
        ensures
            !knob.dragging(),
    {
        Knob { drag_active: false }
    }

    /// Takes an event. Returns what to do about it, in order, and whether the
    /// event goes no further.
    pub fn event(&mut self, event: KnobEvent) -> (result: (Vec<KnobAction>, bool))
        ensures
            result.0@ == actions(old(self).dragging(), event),
            result.1 == consumes(old(self).dragging(), event),
            final(self).dragging() == dragging_after(old(self).dragging(), event),
    {
        let mut todo: Vec<KnobAction> = Vec::new();
        let ghost dragging = self.drag_active;
        let mut consumed: bool = true;
        match event {
            KnobEvent::Press { command } => {
                if command {
                    todo.push(KnobAction::Begin);
                    todo.push(KnobAction::SetDefault);
                    todo.push(KnobAction::End);
                } else {
                    self.drag_active = true;
                    todo.push(KnobAction::Capture);
                    todo.push(KnobAction::Begin);
                }
            },
            KnobEvent::Reset => {
                if self.drag_active {
                    self.drag_active = false;
                    todo.push(KnobAction::LetGo);
                    todo.push(KnobAction::End);
                }
                todo.push(KnobAction::Begin);
                todo.push(KnobAction::SetDefault);
                todo.push(KnobAction::End);
            },
            KnobEvent::Release => {
                consumed = self.drag_active;
                if self.drag_active {
                    self.drag_active = false;
                    todo.push(KnobAction::LetGo);
                    todo.push(KnobAction::End);
                }
            },
            KnobEvent::Move => {
                consumed = false;
                if self.drag_active {
                    todo.push(KnobAction::Drag);
                }
            },
            KnobEvent::Scroll { lines } => {
                if lines != 0 {
                    todo.push(KnobAction::Begin);
                    todo.push(KnobAction::Step { lines });
                    todo.push(KnobAction::End);
                }
            },
        }
        assert(todo@ =~= actions(dragging, event));
        (todo, consumed)
    }
}

impl Default for Knob {
    /// A knob at rest.
    fn default() -> (knob: Self)
        ensures
            !knob.dragging(),
    {
        Knob::new()
    }
}

/// Whole lines in a scrolled distance, towards zero, held to the range of
/// `i32`.
pub open spec fn lines_in(scrolled: u32) -> int {
    if ieee::negative(scrolled) {
        let size = ieee::whole_part((scrolled - ieee::SIGN) as u32);
        if size > i32::MAX {
            -i32::MAX
        } else {
            -size
        }
    } else {
        let size = ieee::whole_part(scrolled);
        if size > i32::MAX {
            i32::MAX as int
        } else {
            size
        }
    }
}

/// Whole lines in a scrolled distance.
///
/// Trackpads deliver fractional lines, which accumulate until a whole step is
/// available.
pub fn whole_lines(scrolled: u32) -> (lines: i32)
    ensures
        lines == lines_in(scrolled),
{
    let minus: bool = scrolled >= ieee::SIGN;
    let size: u32 = ieee::to_integer(scrolled % ieee::SIGN);
    let held: i32 = if size > 0x7FFF_FFFF {
        0x7FFF_FFFF
    } else {
        size as i32
    };
    if minus {
        -held
    } else {
        held
    }
}

// ---------------------------------------------------------------------------
// What gestures guarantee
// ---------------------------------------------------------------------------

/// Changes begun and not ended once `todo` has been done, when `open` were
/// before.
pub open spec fn open_after(todo: Seq<KnobAction>, open: int) -> int
    decreases todo.len(),
{
    if todo.len() == 0 {
        open
    } else {
        let before = open_after(todo.drop_last(), open);
        match todo.last() {
            KnobAction::Begin => before + 1,
            KnobAction::End => before - 1,
            _ => before,
        }
    }
}

/// Whether every change in `todo` happens between a begin and an end, when
/// `open` were begun before.
pub open spec fn changes_are_wrapped(todo: Seq<KnobAction>, open: int) -> bool
    decreases todo.len(),
{
    if todo.len() == 0 {
        true
    } else {
        &&& changes_are_wrapped(todo.drop_last(), open)
        &&& match todo.last() {
            KnobAction::SetDefault => open_after(todo.drop_last(), open) > 0,
            KnobAction::Drag => open_after(todo.drop_last(), open) > 0,
            KnobAction::Step { .. } => open_after(todo.drop_last(), open) > 0,
            KnobAction::End => open_after(todo.drop_last(), open) > 0,
            _ => true,
        }
    }
}

/// One if dragging, else zero.
pub open spec fn held_open(dragging: bool) -> int {
    if dragging {
        1
    } else {
        0
    }
}

/// Whether an event can come while a knob is being dragged or not: a button
/// that is down does not go down again.
pub open spec fn plausible(dragging: bool, event: KnobEvent) -> bool {
    !(dragging && event == (KnobEvent::Press { command: false }))
}

/// Every begin gets its end: after each event exactly the drag in progress is
/// open, and every change the event made was made inside.
pub proof fn law_gestures_balance(dragging: bool, event: KnobEvent)
    requires
        plausible(dragging, event),
    ensures
        open_after(actions(dragging, event), held_open(dragging)) == held_open(
            dragging_after(dragging, event),
        ),
        changes_are_wrapped(actions(dragging, event), held_open(dragging)),
{
    reveal_with_fuel(open_after, 6);
    reveal_with_fuel(changes_are_wrapped, 6);
}

/// What each gesture is for, and for nothing else: a press takes hold of the
/// knob, moving while it is held turns it, letting go lets go, a reset or a
/// press with the command key sets the default, and the wheel steps by as many
/// lines as it moved.
pub proof fn law_gestures_do_what_they_are_for(dragging: bool, event: KnobEvent, lines: i32)
    ensures
        actions(dragging, event).contains(KnobAction::SetDefault) <==> event == KnobEvent::Reset
            || event == (KnobEvent::Press { command: true }),
        actions(dragging, event).contains(KnobAction::Capture) <==> event == (KnobEvent::Press {
            command: false,
        }),
        actions(dragging, event).contains(KnobAction::LetGo) <==> dragging && (event
            == KnobEvent::Reset || event == KnobEvent::Release),
        actions(dragging, event).contains(KnobAction::Drag) <==> dragging && event
            == KnobEvent::Move,
        actions(dragging, event).contains(KnobAction::Step { lines }) <==> event
            == (KnobEvent::Scroll { lines }) && lines != 0,
        dragging_after(dragging, event) <==> event == (KnobEvent::Press { command: false }) || (
        dragging && event != KnobEvent::Release && event != KnobEvent::Reset),
        consumes(dragging, event) <==> event != KnobEvent::Move && (event != KnobEvent::Release
            || dragging),
{
    let todo = actions(dragging, event);
    match event {
        KnobEvent::Press { command } => if command {
            assert(todo[1] == KnobAction::SetDefault);
        } else {
            assert(todo[0] == KnobAction::Capture);
        },
        KnobEvent::Reset => if dragging {
            assert(todo[0] == KnobAction::LetGo && todo[3] == KnobAction::SetDefault);
        } else {
            assert(todo[1] == KnobAction::SetDefault);
        },
        KnobEvent::Release => if dragging {
            assert(todo[0] == KnobAction::LetGo);
        },
        KnobEvent::Move => if dragging {
            assert(todo[0] == KnobAction::Drag);
        },
        KnobEvent::Scroll { lines: moved } => if moved != 0 {
            assert(todo[1] == (KnobAction::Step { lines: moved }));
        },
    }
}

/// A scrolled distance counts as its whole lines, towards zero, and the same in
/// both directions.
pub proof fn law_whole_lines_are_counted(distance: u32)
    requires
        distance < 0x4F00_0000,
    ensures
        lines_in(distance) * power2::pow2(149) <= ieee::units(distance) < (lines_in(distance) + 1)
            * power2::pow2(149),
        lines_in((distance + 0x8000_0000) as u32) == -lines_in(distance),
{
    let one = power2::pow2(149) as int;
    ieee::law_the_whole_part_is_just_below(distance);
    power2::lemma_pow2_pos(149);
    power2::lemma2_to64();
    power2::lemma_pow2_adds(8, 149);
    ieee::lemma_packed_units(157, 0x80_0000);
    ieee::lemma_units_increase(distance as int, 0x4F00_0000);
    assert(ieee::magnitude(distance) == distance);
    assert(0x80_0000 * (0x100 * one) == 0x8000_0000 * one) by (nonlinear_arith);
    let whole = ieee::whole_part(distance);
    assert(whole < 0x8000_0000) by (nonlinear_arith)
        requires
            whole * one < 0x8000_0000 * one,
            one > 0,
    ;
}

/// Whether a knob is being dragged after a run of events that found it at rest.
pub open spec fn dragging_at_end(events: Seq<KnobEvent>) -> bool
    decreases events.len(),
{
    if events.len() == 0 {
        false
    } else {
        dragging_after(dragging_at_end(events.drop_last()), events.last())
    }
}

/// Everything a run of events on a knob at rest makes happen.
pub open spec fn all_actions(events: Seq<KnobEvent>) -> Seq<KnobAction>
    decreases events.len(),
{
    if events.len() == 0 {
        seq![]
    } else {
        all_actions(events.drop_last()) + actions(
            dragging_at_end(events.drop_last()),
            events.last(),
        )
    }
}

/// Whether every event of a run can come when it does.
pub open spec fn plausible_run(events: Seq<KnobEvent>) -> bool
    decreases events.len(),
{
    events.len() == 0 || (plausible_run(events.drop_last()) && plausible(
        dragging_at_end(events.drop_last()),
        events.last(),
    ))
}

/// Doing one list behind another.
proof fn lemma_open_add(a: Seq<KnobAction>, b: Seq<KnobAction>, open: int)
    ensures
        open_after(a + b, open) == open_after(b, open_after(a, open)),
        changes_are_wrapped(a + b, open) == (changes_are_wrapped(a, open) && changes_are_wrapped(
            b,
            open_after(a, open),
        )),
    decreases b.len(),
{
    if b.len() == 0 {
        assert(a + b =~= a);
    } else {
        assert((a + b).drop_last() =~= a + b.drop_last());
        lemma_open_add(a, b.drop_last(), open);
    }
}

/// Over any run of events the host sees properly wrapped changes: whenever the
/// knob is at rest nothing is left open, and nothing changes outside a gesture.
pub proof fn law_a_run_of_gestures_balances(events: Seq<KnobEvent>)
    requires
        plausible_run(events),
    ensures
        open_after(all_actions(events), 0) == held_open(dragging_at_end(events)),
        changes_are_wrapped(all_actions(events), 0),
    decreases events.len(),
{
    if events.len() > 0 {
        let before = events.drop_last();
        law_a_run_of_gestures_balances(before);
        law_gestures_balance(dragging_at_end(before), events.last());
        lemma_open_add(
            all_actions(before),
            actions(dragging_at_end(before), events.last()),
            0,
        );
    }
}

} // verus!
