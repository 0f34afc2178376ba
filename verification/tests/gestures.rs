use amberhead_or100::dsp::filters::Direction;
use amberhead_or100::gui::knob::{
    whole_lines, Knob, KnobAction, KnobEvent, DRAG_RANGE_PX, FINE_DRAG_DIVISOR, SWEEP_DEGREES,
    TICK_COUNT,
};
use amberhead_or100::gui::switch::{detent, is_engaged, positions, scroll, toggled};

/// The detent selected by a cursor this far down a lever.
fn index_for(cursor_fraction: f32, positions: usize) -> f32 {
    let last = (positions - 1) as f32;
    let position = (1.0 - cursor_fraction.clamp(0.0, 1.0)) * last;
    detent(position.to_bits(), positions) as f32
}

#[test]
fn clicking_the_top_selects_the_last_variant() {
    // Power switch: Off, Standby, On. Clicking the top must select On.
    assert_eq!(index_for(0.0, 3), 2.0);
    assert_eq!(index_for(0.5, 3), 1.0);
    assert_eq!(index_for(1.0, 3), 0.0);
}

#[test]
fn four_position_lever_addresses_every_wattage_mode() {
    // 100 W, 70 W, 50 W, 30 W: four detents, top is index 3.
    assert_eq!(index_for(0.0, 4), 3.0);
    assert_eq!(index_for(0.34, 4), 2.0);
    assert_eq!(index_for(0.66, 4), 1.0);
    assert_eq!(index_for(1.0, 4), 0.0);
}

#[test]
fn cursor_positions_outside_the_widget_are_clamped() {
    for positions in 2..=4 {
        let last = (positions - 1) as f32;
        assert_eq!(index_for(-5.0, positions), last);
        assert_eq!(index_for(5.0, positions), 0.0);
    }
}

#[test]
fn every_detent_maps_back_to_a_distinct_normalized_value() {
    for positions in 2..=4 {
        let last = (positions - 1) as f32;
        let mut seen = Vec::new();
        for step in 0..=100 {
            let normalized = index_for(step as f32 / 100.0, positions) / last;
            assert!((0.0..=1.0).contains(&normalized));
            if !seen.contains(&normalized.to_bits()) {
                seen.push(normalized.to_bits());
            }
        }
        assert_eq!(seen.len(), positions, "missed a detent at {positions}");
    }
}

#[test]
fn detents_round_as_positions_do() {
    for positions in 2..=8usize {
        for step in -8..=80 {
            let position = step as f32 / 8.0;
            let expected = position.round().clamp(0.0, (positions - 1) as f32);
            assert_eq!(
                detent(position.to_bits(), positions) as f32,
                expected,
                "{position} of {positions}"
            );
        }
    }
    assert_eq!(detent(f32::NAN.to_bits(), 4), 0);
    assert_eq!(detent(f32::INFINITY.to_bits(), 4), 3);
    // Positions too large for halves are whole numbers already.
    assert_eq!(detent(16_777_216.0f32.to_bits(), 20_000_000), 16_777_216);
    assert_eq!(detent(16_777_216.0f32.to_bits(), 10_000_000), 9_999_999);
    assert_eq!(detent(f32::MAX.to_bits(), usize::MAX), usize::MAX - 1);
    assert_eq!(detent(1.0e30f32.to_bits(), 4), 3);
    assert_eq!(detent(0.499_999_97f32.to_bits(), 4), 0);
}

#[test]
fn a_lever_has_one_detent_more_than_steps() {
    assert_eq!(positions(Some(3)), 4);
    assert_eq!(positions(Some(2)), 3);
    assert_eq!(positions(Some(1)), 2);
    assert_eq!(positions(Some(0)), 2);
    assert_eq!(positions(None), 2);
}

#[test]
fn a_bat_goes_to_its_other_position() {
    let bits = |x: f32| x.to_bits();
    assert!(is_engaged(bits(0.5)));
    assert!(!is_engaged(bits(0.499)));
    assert!(!is_engaged(bits(f32::NAN)));
    assert_eq!(toggled(bits(1.0)), bits(0.0));
    assert_eq!(toggled(bits(0.0)), bits(1.0));
    assert_eq!(toggled(toggled(bits(1.0))), bits(1.0));
    assert_eq!(scroll(bits(0.1)), Direction::Up);
    assert_eq!(scroll(bits(-0.1)), Direction::Down);
    assert_eq!(scroll(bits(0.0)), Direction::Hold);
}

/// Pointer angle at a fraction of the travel, clockwise from straight up. This
/// file's own floating-point copy: tests through it show the library's sweep,
/// and nothing of the plugin's drawing.
fn angle_for(fraction: f32) -> f32 {
    let sweep = (SWEEP_DEGREES as f32).to_radians();
    -sweep * 0.5 + sweep * fraction
}

/// Direction of the pointer on screen.
fn direction(fraction: f32) -> (f32, f32) {
    let (sin, cos) = angle_for(fraction).sin_cos();
    (sin, -cos)
}

#[test]
fn sweep_is_exactly_270_degrees() {
    let start = angle_for(0.0);
    let end = angle_for(1.0);
    assert!(((end - start).to_degrees() - 270.0).abs() < 1.0e-3);
}

#[test]
fn minimum_points_down_left_and_maximum_down_right() {
    let (dx_min, dy_min) = direction(0.0);
    assert!(dx_min < 0.0, "minimum did not point left: {dx_min}");
    assert!(dy_min > 0.0, "minimum did not point down: {dy_min}");

    let (dx_max, dy_max) = direction(1.0);
    assert!(dx_max > 0.0, "maximum did not point right: {dx_max}");
    assert!(dy_max > 0.0, "maximum did not point down: {dy_max}");

    // Symmetric about the vertical axis.
    assert!((dx_min + dx_max).abs() < 1.0e-5);
    assert!((dy_min - dy_max).abs() < 1.0e-5);
}

#[test]
fn centre_points_straight_up() {
    let (dx, dy) = direction(0.5);
    assert!(dx.abs() < 1.0e-6, "centre drifted sideways: {dx}");
    assert!((dy + 1.0).abs() < 1.0e-6, "centre did not point up: {dy}");
}

#[test]
fn pointer_rotates_monotonically_clockwise() {
    let mut previous = f32::NEG_INFINITY;
    for step in 0..=100 {
        let angle = angle_for(step as f32 / 100.0);
        assert!(angle > previous, "rotation reversed at step {step}");
        previous = angle;
    }
}

#[test]
fn index_ticks_span_the_whole_sweep() {
    let first = angle_for(0.0);
    let last = angle_for((TICK_COUNT - 1) as f32 / (TICK_COUNT - 1) as f32);
    assert!((first - angle_for(0.0)).abs() < 1.0e-6);
    assert!((last - angle_for(1.0)).abs() < 1.0e-6);
    // Eleven ticks give the 0..10 markings a real amp's faceplate carries.
    assert_eq!(TICK_COUNT, 11);
    assert_eq!(SWEEP_DEGREES, 270);
}

#[test]
fn drag_conversion_covers_the_range_over_the_declared_distance() {
    // Dragging DRAG_RANGE_PX pixels must traverse exactly one full span.
    let span = 10.0f32;
    let range = DRAG_RANGE_PX as f32;
    let delta = range / range * span;
    assert!((delta - span).abs() < 1.0e-6);

    // ...and holding shift must cover a fifth of it.
    let fine = range / range * span / FINE_DRAG_DIVISOR as f32;
    assert!((fine - 2.0).abs() < 1.0e-6);
    assert_eq!(DRAG_RANGE_PX, 220);
}

#[test]
fn a_drag_is_one_gesture() {
    let mut knob = Knob::new();
    assert_eq!(
        knob.event(KnobEvent::Press { command: false }),
        (vec![KnobAction::Capture, KnobAction::Begin], true)
    );
    assert_eq!(
        knob.event(KnobEvent::Move),
        (vec![KnobAction::Drag], false)
    );
    assert_eq!(
        knob.event(KnobEvent::Release),
        (vec![KnobAction::LetGo, KnobAction::End], true)
    );
    assert_eq!(knob.event(KnobEvent::Move), (vec![], false));
    assert_eq!(knob.event(KnobEvent::Release), (vec![], false));
}

#[test]
fn resetting_ends_a_drag_first() {
    let reset = vec![KnobAction::Begin, KnobAction::SetDefault, KnobAction::End];
    let mut knob = Knob::default();
    assert_eq!(knob.event(KnobEvent::Reset), (reset.clone(), true));
    assert_eq!(
        knob.event(KnobEvent::Press { command: true }),
        (reset.clone(), true)
    );
    knob.event(KnobEvent::Press { command: false });
    let (actions, consumed) = knob.event(KnobEvent::Reset);
    assert_eq!(actions[..2], [KnobAction::LetGo, KnobAction::End]);
    assert_eq!(actions[2..], reset);
    assert!(consumed);
    assert_eq!(knob.event(KnobEvent::Move), (vec![], false));
}

#[test]
fn scrolling_waits_for_whole_lines() {
    let mut knob = Knob::new();
    assert_eq!(
        knob.event(KnobEvent::Scroll { lines: 0 }),
        (vec![], true)
    );
    assert_eq!(
        knob.event(KnobEvent::Scroll { lines: -2 }),
        (
            vec![
                KnobAction::Begin,
                KnobAction::Step { lines: -2 },
                KnobAction::End
            ],
            true
        )
    );
    for (scrolled, lines) in [
        (0.9f32, 0),
        (1.0, 1),
        (-0.9, 0),
        (-1.0, -1),
        (3.75, 3),
        (-3.75, -3),
        (f32::NAN, 0),
    ] {
        assert_eq!(whole_lines(scrolled.to_bits()), lines, "{scrolled}");
    }
}
