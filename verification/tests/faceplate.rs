use amberhead_or100::gui::chassis::{
    bar, chassis, header, panel, Cell, Grain, Plate, CHASSIS_RADIUS, CHROME_WIDTH, CORNER_SIZE,
    GRAIN_SCALE, GRAIN_SEED, GRAIN_SPECKLES,
};
use amberhead_or100::gui::controls::{build_controls, caption, control_for, Widget};
use amberhead_or100::gui::glyphs::{burst_radius, Glyph, BURST_CORNERS};
use amberhead_or100::gui::jewel::is_lit;
use amberhead_or100::gui::theme::{
    rgb, split, AMBER, AMBER_DEEP, BAND_ORANGE, BAR_INK, CHROME_DARK, CHROME_LIGHT, CORNER_BODY,
    CORNER_EDGE, CORNER_LIT, HARDWARE_BASE, KNOB_BODY, KNOB_POINTER, ORANGE, ORANGE_DEEP,
    PANEL_ENGRAVE, PANEL_INK, PANEL_SHADE, PANEL_WHITE, TOLEX_EDGE, TOLEX_GRAIN, TOLEX_LIT,
    TOLEX_SHADE,
};
use amberhead_or100::params::{all_parameters, Parameter};

/// Channels of a colour on the unit range.
fn channels(colour: u32) -> (f32, f32, f32) {
    let (red, green, blue) = split(colour);
    (
        red as f32 / 255.0,
        green as f32 / 255.0,
        blue as f32 / 255.0,
    )
}

/// Perceptual luminance, used to check contrast between panel elements.
fn luminance(colour: u32) -> f32 {
    let (red, green, blue) = channels(colour);
    0.2126 * red + 0.7152 * green + 0.0722 * blue
}

#[test]
fn the_cells_tile_the_control_bar_exactly() {
    // Any gap or overlap here shows as a doubled or missing black rule between
    // two cells, and puts the knobs off their painted background.
    let (switches, clean, dirty) = (
        Cell::Switches.plate(),
        Cell::Clean.plate(),
        Cell::Dirty.plate(),
    );
    assert_eq!(switches.x, bar().x);
    assert_eq!(switches.right(), clean.x);
    assert_eq!(clean.right(), dirty.x);
    assert_eq!(dirty.right(), bar().right());

    let total = switches.w + clean.w + dirty.w;
    assert_eq!(total, bar().w, "the cells do not add up to the bar");

    for cell in [switches, clean, dirty] {
        assert_eq!(cell.y, bar().y);
        assert_eq!(cell.h, bar().h);
    }
}

#[test]
fn every_element_sits_inside_the_one_that_contains_it() {
    assert!(panel().inside(&chassis()), "the panel hangs off the box");
    assert!(header().inside(&panel()), "the header hangs off the panel");
    assert!(bar().inside(&panel()), "the control bar hangs off the panel");
    // The bar must clear the header rather than overlapping the wordmark.
    assert!(bar().y > header().bottom(), "the bar overlaps the header");
}

#[test]
fn the_panel_is_inset_from_the_box_on_every_side() {
    // A panel flush with an edge would leave no tolex to read as a box, and
    // would collide with the corner protectors.
    let left = panel().x - chassis().x;
    let right = chassis().right() - panel().right();
    let top = panel().y - chassis().y;
    let bottom = chassis().bottom() - panel().bottom();
    for (name, margin) in [
        ("left", left),
        ("right", right),
        ("top", top),
        ("bottom", bottom),
    ] {
        assert!(margin >= CHASSIS_RADIUS, "{name} margin is only {margin}");
    }
    assert_eq!(left, right, "the panel is not centred horizontally");
    // Real heads sit the panel slightly above centre; the deeper skirt below is
    // where the chassis and valves live.
    assert!(bottom > top, "the panel is not sitting above centre");
}

#[test]
fn every_knob_gets_a_legible_share_of_its_cell() {
    // A guitar amp knob needs about 60 logical pixels to stay legible with its
    // pictogram above it.
    for (name, cell, knobs) in [("clean", Cell::Clean, 3), ("dirty", Cell::Dirty, 5)] {
        let per_knob = cell.plate().w as f32 / knobs as f32;
        assert!(
            per_knob >= 60.0,
            "{name} knobs would be only {per_knob} wide"
        );
    }
}

#[test]
fn corner_protectors_and_the_panel_do_not_collide() {
    // The protectors wrap the extreme corners of the box; the panel and its
    // chrome bezel are set into the middle. An overlap would draw moulded
    // plastic across the trim.
    let bezel = Plate::new(
        panel().x - CHROME_WIDTH,
        panel().y - CHROME_WIDTH,
        panel().w + CHROME_WIDTH * 2,
        panel().h + CHROME_WIDTH * 2,
    );
    let right = chassis().right() - CORNER_SIZE;
    let bottom = chassis().bottom() - CORNER_SIZE;
    for (name, x, y) in [
        ("top left", chassis().x, chassis().y),
        ("top right", right, chassis().y),
        ("bottom left", chassis().x, bottom),
        ("bottom right", right, bottom),
    ] {
        let protector = Plate::new(x, y, CORNER_SIZE, CORNER_SIZE);
        assert!(
            protector.inside(&chassis()),
            "the {name} protector hangs off the box"
        );
        assert!(
            !protector.overlaps(&bezel),
            "the {name} protector overlaps the panel bezel"
        );
    }

    // The two protectors on one end must not run into each other.
    let top = Plate::new(chassis().x, chassis().y, CORNER_SIZE, CORNER_SIZE);
    let bottom = Plate::new(chassis().x, bottom, CORNER_SIZE, CORNER_SIZE);
    assert!(
        !top.overlaps(&bottom),
        "the protectors meet in the middle of the end panel"
    );
}

#[test]
fn plates_that_touch_do_not_overlap() {
    let left = Plate::new(0, 0, 10, 10);
    assert!(!left.overlaps(&Plate::new(10, 0, 10, 10)));
    assert!(left.overlaps(&Plate::new(9, 9, 10, 10)));
    assert!(left.inside(&left));
    assert!(!left.inside(&Plate::new(0, 0, 10, 9)));
    assert_eq!((left.right(), left.bottom()), (10, 10));
}

#[test]
fn the_grain_generator_is_reproducible_and_spread() {
    let sample = || {
        let mut grain = Grain::new();
        let mut values = Vec::with_capacity(GRAIN_SPECKLES);
        for _ in 0..GRAIN_SPECKLES {
            values.push(grain.draw() as f32 / GRAIN_SCALE as f32);
        }
        values
    };
    let first = sample();
    let mut state = GRAIN_SEED;
    let mut expected = Vec::with_capacity(GRAIN_SPECKLES);
    for _ in 0..GRAIN_SPECKLES {
        state = state.wrapping_mul(1_664_525).wrapping_add(1_013_904_223);
        expected.push((state >> 8) as f32 / 16_777_216.0);
    }
    assert_eq!(first, expected);
    assert_eq!(first, sample(), "the grain is not reproducible");
    assert!(first.iter().all(|value| (0.0..1.0).contains(value)));

    // A degenerate generator that returned a constant would pile every speckle
    // in one spot.
    let mean: f32 = first.iter().sum::<f32>() / first.len() as f32;
    assert!((0.45..0.55).contains(&mean), "grain is not spread: {mean}");
}

#[test]
fn burst_points_stay_inside_the_unit_box() {
    assert_eq!(BURST_CORNERS, 16);
    for index in 0..16 {
        let angle = std::f32::consts::TAU * index as f32 / 16.0;
        let radius = if index % 2 == 0 { 0.48 } else { 0.19 };
        assert_eq!(burst_radius(index) as f32 / 100.0, radius);
        let u = 0.5 + radius * angle.sin();
        let v = 0.5 - radius * angle.cos();
        assert!((0.0..=1.0).contains(&u), "u={u}");
        assert!((0.0..=1.0).contains(&v), "v={v}");
    }
}

#[test]
fn glyphs_are_distinct_values() {
    let all = [
        Glyph::Speaker,
        Glyph::BassClef,
        Glyph::TrebleClef,
        Glyph::SoundWave,
        Glyph::Burst,
    ];
    for (i, a) in all.iter().enumerate() {
        for (j, b) in all.iter().enumerate() {
            assert_eq!(i == j, a == b);
        }
    }
}

#[test]
fn halo_follows_the_engine_reported_brightness_levels() {
    let lit = |brightness: f32| is_lit(brightness.to_bits());
    // The lamp reports exactly these three values for the three power switch
    // positions.
    assert!(!lit(0.0), "the halo must be dark with the amp off");
    assert!(lit(0.55), "standby must still glow");
    assert!(lit(1.0), "a full rail must glow");
    // ...and the threshold must not swallow a nearly-collapsed rail.
    assert!(lit(0.6), "a sagging rail went dark");
    assert!(!lit(0.02));
    assert!(lit(0.021));
    assert!(!lit(f32::NAN));
}

#[test]
fn rgb_maps_bytes_onto_the_unit_range() {
    assert_eq!(channels(rgb(0, 0, 0)), (0.0, 0.0, 0.0));
    assert_eq!(channels(rgb(255, 255, 255)), (1.0, 1.0, 1.0));
    assert_eq!(split(rgb(1, 2, 3)), (1, 2, 3));
    assert_eq!(rgb(0xE8, 0x62, 0x0E), ORANGE);
}

#[test]
fn the_orange_family_is_actually_orange() {
    for (name, colour) in [
        ("band", ORANGE),
        ("deep", ORANGE_DEEP),
        ("amber", AMBER),
        ("tolex lit", TOLEX_LIT),
        ("tolex shade", TOLEX_SHADE),
        ("tolex grain", TOLEX_GRAIN),
        ("tolex edge", TOLEX_EDGE),
    ] {
        let (red, green, blue) = split(colour);
        assert!(
            red > green && green > blue,
            "{name} is not an orange hue"
        );
    }
}

#[test]
fn the_vinyl_is_lit_from_above() {
    // The box is drawn with a top-to-bottom gradient, so the lit shade has to be
    // the brighter one or the light appears to come from the floor.
    assert!(
        luminance(TOLEX_LIT) > luminance(TOLEX_SHADE),
        "the tolex gradient is upside down"
    );
    // Both grain colours have to be visible against the vinyl without turning it
    // into a different material.
    let grain = luminance(TOLEX_SHADE) - luminance(TOLEX_GRAIN);
    assert!((0.03..0.35).contains(&grain), "grain contrast is {grain}");
    assert!(
        luminance(TOLEX_EDGE) < luminance(TOLEX_SHADE),
        "the edge shadow is lighter than the surface it shades"
    );
}

#[test]
fn the_panel_is_a_warm_near_white() {
    for (name, colour) in [("panel", PANEL_WHITE), ("shade", PANEL_SHADE)] {
        let (red, green, blue) = split(colour);
        assert!(luminance(colour) > 0.8, "{name} is too dark for the panel");
        assert!(red >= green, "{name} is not warm");
        assert!(green >= blue, "{name} is not warm");
    }
    assert!(
        luminance(PANEL_WHITE) > luminance(PANEL_SHADE),
        "the panel gradient is upside down"
    );
    // The panel has to read as a lighter material than the vinyl it is set into,
    // which is the whole point of the aperture.
    assert!(luminance(PANEL_WHITE) > luminance(TOLEX_LIT) + 0.3);
}

#[test]
fn the_corner_protectors_read_as_black_plastic() {
    assert!(luminance(CORNER_BODY) < 0.15, "the corners are not dark");
    assert!(
        luminance(CORNER_LIT) > luminance(CORNER_BODY),
        "the corner protectors have no highlight"
    );
    assert!(
        luminance(CORNER_EDGE) < luminance(CORNER_BODY),
        "the corner outline does not read against the moulding"
    );
}

#[test]
fn every_marking_contrasts_with_the_surface_it_sits_on() {
    // Screen-printed ink and engraved marks against the white panel.
    for (name, ink) in [("ink", PANEL_INK), ("engrave", PANEL_ENGRAVE)] {
        let contrast = luminance(PANEL_WHITE) - luminance(ink);
        assert!(
            contrast > 0.15,
            "{name} is illegible on the panel: {contrast}"
        );
    }
    // Glyphs are printed on the orange cells too, so they have to survive that
    // background as well as the white one.
    let on_orange = luminance(BAND_ORANGE) - luminance(PANEL_INK);
    assert!(on_orange > 0.15, "ink is illegible on orange: {on_orange}");
    // The bar outline against both of the surfaces it separates.
    for (name, surface) in [("panel", PANEL_WHITE), ("band", BAND_ORANGE)] {
        let contrast = luminance(surface) - luminance(BAR_INK);
        assert!(contrast > 0.2, "the bar outline vanishes on {name}");
    }
    // The white pointer against the black knob cap.
    let pointer = luminance(KNOB_POINTER) - luminance(KNOB_BODY);
    assert!(pointer > 0.8, "pointer is invisible on the cap: {pointer}");
    // The knob cap against the orange cell it is mounted on.
    let cap = luminance(BAND_ORANGE) - luminance(KNOB_BODY);
    assert!(cap > 0.3, "knob cap does not stand out: {cap}");
}

#[test]
fn chrome_has_a_light_and_a_dark_side() {
    let range = luminance(CHROME_LIGHT) - luminance(CHROME_DARK);
    assert!(range > 0.2, "chrome gradient is too flat: {range}");
    assert!(luminance(HARDWARE_BASE) < luminance(CHROME_DARK));
}

#[test]
fn the_lit_jewel_is_brighter_than_the_unlit_one() {
    let range = luminance(AMBER) - luminance(AMBER_DEEP);
    assert!(range > 0.2, "the jewel barely changes when lit: {range}");
}

#[test]
fn every_parameter_has_exactly_one_control() {
    let controls = build_controls();
    assert_eq!(controls.len(), 14);
    for parameter in all_parameters() {
        let found: Vec<_> = controls
            .iter()
            .filter(|control| control.parameter == parameter)
            .collect();
        assert_eq!(found, [&control_for(parameter)]);
    }
    let in_cell = |cell: Cell| controls.iter().filter(|control| control.cell == cell).count();
    assert_eq!(
        (
            in_cell(Cell::Switches),
            in_cell(Cell::Clean),
            in_cell(Cell::Dirty)
        ),
        (6, 3, 5)
    );
}

#[test]
fn controls_suit_their_parameters() {
    for control in build_controls() {
        let expected = match control.parameter.step_count() {
            None => matches!(control.widget, Widget::Knob(_)),
            Some(1) => control.widget == Widget::Bat,
            Some(_) => control.widget == Widget::Lever,
        };
        assert!(expected, "{control:?}");
        assert_eq!(
            caption(control.parameter).is_empty(),
            matches!(control.widget, Widget::Knob(_))
        );
    }
    assert_eq!(caption(Parameter::GlobalBoost), "+3dB");
    assert_eq!(
        control_for(Parameter::DirtyMiddle).widget,
        Widget::Knob(Glyph::SoundWave)
    );
}
