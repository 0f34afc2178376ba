use amberhead_or100::dsp::denormal::{
    flush, sanitize, sanitize_volts, DenormalGuard, AUDIO_LIMIT, DAZ, DENORMAL_THRESHOLD, FTZ,
    VOLTAGE_LIMIT,
};

fn through(stage: fn(u32) -> u32, x: f32) -> f32 {
    f32::from_bits(stage(x.to_bits()))
}

#[test]
fn flush_kills_subnormals_but_keeps_audio() {
    assert_eq!(through(flush, 1.0e-30), 0.0);
    assert_eq!(through(flush, -1.0e-30), 0.0);
    assert_eq!(through(flush, f32::MIN_POSITIVE / 2.0), 0.0);
    // -120 dBFS is still audible headroom and must survive untouched.
    assert_eq!(through(flush, 1.0e-6), 1.0e-6);
    assert_eq!(through(flush, -0.5), -0.5);
}

#[test]
fn sanitize_contains_non_finite_and_explosive_values() {
    assert_eq!(through(sanitize, f32::NAN), 0.0);
    assert_eq!(through(sanitize, f32::INFINITY), 0.0);
    assert_eq!(through(sanitize, f32::NEG_INFINITY), 0.0);
    assert_eq!(through(sanitize, 1.0e9), 32.0);
    assert_eq!(through(sanitize, -1.0e9), -32.0);
    assert_eq!(through(sanitize, 0.25), 0.25);
}

#[test]
fn sanitize_volts_contains_blow_ups_without_clipping_plate_swings() {
    let limit = f32::from_bits(VOLTAGE_LIMIT);
    assert_eq!(through(sanitize_volts, f32::NAN), 0.0);
    assert_eq!(through(sanitize_volts, f32::INFINITY), 0.0);
    assert_eq!(through(sanitize_volts, f32::NEG_INFINITY), 0.0);
    assert_eq!(through(sanitize_volts, 1.0e9), limit);
    assert_eq!(through(sanitize_volts, -1.0e9), -limit);
    // A 12AX7 plate cut off from a 300 V rail swings ~100 V above its quiescent
    // point; that must pass through untouched.
    assert_eq!(through(sanitize_volts, 105.0), 105.0);
    assert_eq!(through(sanitize_volts, -150.0), -150.0);
}

#[test]
fn guard_restores_previous_control_word() {
    for before in [0x1F80u32, 0, 0x9FC0, u32::MAX] {
        let guard = DenormalGuard::new(before);
        let during = guard.engaged();
        assert_eq!(during & (FTZ | DAZ), FTZ | DAZ);
        assert_eq!(during & !(FTZ | DAZ), before & !(FTZ | DAZ));
        assert_eq!(guard.restored(), before);
    }
}

#[test]
fn limits_are_the_numbers_they_are_named_after() {
    assert_eq!(f32::from_bits(AUDIO_LIMIT), 32.0);
    assert_eq!(f32::from_bits(VOLTAGE_LIMIT), 600.0);
    assert_eq!(f32::from_bits(DENORMAL_THRESHOLD), 1.0e-20);
    assert_eq!((FTZ, DAZ), (0x8000, 0x0040));
}

#[test]
fn the_threshold_itself_survives() {
    assert_eq!(flush(DENORMAL_THRESHOLD), DENORMAL_THRESHOLD);
    assert_eq!(flush(DENORMAL_THRESHOLD - 1), 0);
    assert_eq!(through(flush, -f32::from_bits(DENORMAL_THRESHOLD - 1)).to_bits(), 0);
}

#[test]
fn a_second_boundary_changes_nothing() {
    for x in [f32::NAN, 1.0e9, -1.0e9, 31.9, -0.0, 1.0e-30] {
        let once = sanitize(x.to_bits());
        assert_eq!(sanitize(once), once);
        let once = sanitize_volts(x.to_bits());
        assert_eq!(sanitize_volts(once), once);
    }
}
