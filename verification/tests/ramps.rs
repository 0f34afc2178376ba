use amberhead_or100::dsp::filters::{arrive_at, direction_of, Direction, SwitchRamp, ONE};

const FS: f32 = 48_000.0;

/// Advances a ramp by one step of `step`.
fn advance(ramp: &mut SwitchRamp, step: f32) -> f32 {
    let current = f32::from_bits(ramp.value());
    let moved = match ramp.direction() {
        Direction::Up => current + step,
        Direction::Down => current - step,
        Direction::Hold => current,
    };
    f32::from_bits(ramp.advance(moved.to_bits()))
}

#[test]
fn switch_ramp_is_bounded_and_monotonic() {
    let mut ramp = SwitchRamp::prepare(false);
    let step = 1.0 / (10.0 * 0.001 * FS).max(1.0);
    ramp.set(true);
    let mut previous = 0.0;
    for _ in 0..(0.02 * FS) as usize {
        let v = advance(&mut ramp, step);
        assert!((0.0..=1.0).contains(&v));
        assert!(v >= previous);
        previous = v;
    }
    assert_eq!(previous, 1.0);
}

#[test]
fn a_ramp_comes_back_to_fully_off() {
    let mut ramp = SwitchRamp::prepare(true);
    assert!(!ramp.is_fully_off());
    assert_eq!(ramp.value(), ONE);
    ramp.set(false);
    assert_eq!(ramp.direction(), Direction::Down);
    let mut previous = 1.0;
    for _ in 0..8 {
        let v = advance(&mut ramp, 0.3);
        assert!(v <= previous);
        previous = v;
    }
    assert_eq!(previous, 0.0);
    assert!(ramp.is_fully_off());
    ramp.set(true);
    assert!(!ramp.is_fully_off());
    assert!(SwitchRamp::default().is_fully_off());
}

#[test]
fn a_step_ends_at_its_target() {
    let bits = |x: f32| x.to_bits();
    assert_eq!(direction_of(bits(0.25), bits(0.5)), Direction::Up);
    assert_eq!(direction_of(bits(0.5), bits(0.25)), Direction::Down);
    assert_eq!(direction_of(bits(0.0), bits(-0.0)), Direction::Hold);
    assert_eq!(direction_of(bits(f32::NAN), bits(1.0)), Direction::Hold);
    assert_eq!(arrive_at(bits(0.25), bits(0.5), bits(0.75)), bits(0.5));
    assert_eq!(arrive_at(bits(0.25), bits(0.5), bits(0.375)), bits(0.375));
    assert_eq!(arrive_at(bits(0.5), bits(0.25), bits(0.125)), bits(0.25));
    assert_eq!(arrive_at(bits(0.5), bits(0.5), bits(9.0)), bits(0.5));
}
