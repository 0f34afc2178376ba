use std::path::PathBuf;

use amberhead_or100::dsp::cabinet::IR_LENGTH;
use amberhead_or100::gui::browser::{
    cabinet_label, describe, display_directory, row_caption, short_cabinet_label, stem_label,
    DEFAULT_CABINET_LABEL, MAX_CABINET_LABEL,
};
use amberhead_or100::gui::{
    wordmark, Data, Todo, UiEvent, LAMP_REFRESH_MS, WINDOW_HEIGHT, WINDOW_WIDTH,
};
use amberhead_or100::ir::{DirectoryEntry, IrError, LoadedIr};
use amberhead_or100::shared::{AtomicLevel, IrSlot};

fn entry(name: &str, is_directory: bool) -> DirectoryEntry {
    DirectoryEntry {
        label: name.to_string(),
        path: PathBuf::from("/cabs").join(name),
        is_directory,
    }
}

fn model() -> Data {
    Data::new(PathBuf::from("/cabs"), "/cabs", "", 0)
}

fn response(taps: usize) -> LoadedIr {
    LoadedIr {
        taps: vec![1.0f32.to_bits(); taps],
        source_rate: 48_000,
        source_channels: 1,
        source_frames: taps,
        truncated: false,
    }
}

#[test]
fn the_default_cabinet_has_a_label_and_short_names_pass_through() {
    assert_eq!(cabinet_label(""), DEFAULT_CABINET_LABEL);
    assert_eq!(cabinet_label("C:/cabs/v30.wav"), "V30");
    assert_eq!(cabinet_label("/home/user/cabs/Green 25.wav"), "GREEN 25");
}

#[test]
fn labels_come_from_the_file_stem() {
    assert_eq!(stem_label(Some("v30")), "V30");
    assert_eq!(stem_label(None), DEFAULT_CABINET_LABEL);
    assert_eq!(DEFAULT_CABINET_LABEL, "4x12 BUILT-IN");
    assert_eq!(cabinet_label("/cabs/a.b.wav"), "A.B");
    assert_eq!(cabinet_label("/cabs/v30.wav/."), "V30");
    assert_eq!(cabinet_label("/cabs/.."), DEFAULT_CABINET_LABEL);
    assert_eq!(cabinet_label("/cabs/Mesa: SM57.wav"), "MESA: SM57");
    assert_eq!(cabinet_label("/cabs/.wav"), ".WAV");
    assert_eq!(cabinet_label("/"), DEFAULT_CABINET_LABEL);
}

#[test]
fn long_cabinet_names_keep_the_part_that_distinguishes_them() {
    // Two files from the same vendor pack differ only at the end. Eliding from
    // the front is what keeps them apart on the button.
    let first = short_cabinet_label("Marshall1960A_V30_SM57_Cone");
    let second = short_cabinet_label("Marshall1960A_V30_SM57_Cap");
    assert_ne!(first, second);
    assert!(first.chars().count() <= MAX_CABINET_LABEL);
    assert!(second.chars().count() <= MAX_CABINET_LABEL);
    assert!(first.ends_with("CONE"), "{first}");
    assert!(second.ends_with("CAP"), "{second}");
    assert_eq!(second, "…0A_V30_SM57_CAP");

    // A name that already fits is left alone apart from the case.
    assert_eq!(short_cabinet_label("v30 cone"), "V30 CONE");
}

#[test]
fn label_shortening_counts_characters_not_bytes() {
    // Slicing by byte would panic in the middle of these.
    let label = short_cabinet_label("åäöéüñ-cabinet-impulse-µ");
    assert!(label.chars().count() <= MAX_CABINET_LABEL);
    assert!(!label.is_empty());
}

#[test]
fn directories_render_with_forward_slashes_and_bounded_length() {
    let short = display_directory("C:\\cabs\\v30");
    assert_eq!(short, "C:/cabs/v30");

    let deep = "C:\\a-very-long-library-root\\vendor\\pack\\model\\mic\\position\\distance\\take";
    let rendered = display_directory(deep);
    assert!(rendered.chars().count() <= 58, "{rendered}");
    assert!(rendered.starts_with('…'));
    assert!(
        rendered.ends_with("take"),
        "the leaf folder was elided away"
    );
}

#[test]
fn the_status_line_reports_what_was_actually_done() {
    let plain = response(512);
    let summary = describe(&plain, "v30.wav", 48_000.0f32.to_bits());
    assert_eq!(summary, "v30.wav — 512 taps");

    let converted = LoadedIr {
        taps: vec![1.0f32.to_bits(); 4096],
        source_rate: 44_100,
        source_channels: 2,
        source_frames: 9_000,
        truncated: true,
    };
    let summary = describe(&converted, "long.wav", 96_000.0f32.to_bits());
    assert!(summary.contains("resampled 44100 → 96000 Hz"), "{summary}");
    assert!(summary.contains("channel 1 of 2"), "{summary}");
    assert!(summary.contains("tail trimmed"), "{summary}");
    assert_eq!(
        summary,
        "long.wav — 4096 taps, resampled 44100 → 96000 Hz, channel 1 of 2, tail trimmed"
    );
}

#[test]
fn rows_tell_folders_from_files() {
    assert_eq!(row_caption(&entry("celestion", true)), "▸  celestion");
    assert_eq!(row_caption(&entry("v30.wav", false)), "     v30.wav");
}

#[test]
fn browsing_keeps_the_old_listing_when_a_folder_cannot_be_read() {
    let mut model = model();
    model.browse_to(
        PathBuf::from("/cabs/new"),
        "/cabs\\new",
        Ok(vec![entry("a", true), entry("b.wav", false)]),
    );
    assert_eq!(model.ir_location, PathBuf::from("/cabs/new"));
    assert_eq!(model.ir_directory, "/cabs/new");
    assert_eq!(model.ir_entries.len(), 2);
    assert_eq!(model.ir_status, "");

    let entries = model.ir_entries.clone();
    model.browse_to(
        PathBuf::from("/no/such/directory/anywhere"),
        "/no/such/directory/anywhere",
        Err(IrError::Io("not found".to_string())),
    );
    assert_eq!(
        model.ir_status,
        "cannot open folder: cannot read file: not found"
    );
    assert_eq!(model.ir_entries, entries);
    assert_eq!(model.ir_location, PathBuf::from("/cabs/new"));

    model.browse_to(PathBuf::from("/empty"), "/empty", Ok(vec![]));
    assert_eq!(model.ir_status, "no folders or WAV files here");
    assert!(model.ir_entries.is_empty());
}

#[test]
fn walking_up_stops_at_the_top() {
    let mut model = model();
    assert_eq!(
        model.browse_up(Some(PathBuf::from("/")), false),
        Some(PathBuf::from("/"))
    );
    assert_eq!(model.ir_status, "");
    assert_eq!(model.browse_up(None, false), None);
    assert_eq!(model.ir_status, "already at the top");
    assert_eq!(model.browse_up(Some(PathBuf::new()), true), None);
}

#[test]
fn selecting_navigates_into_folders_and_loads_files() {
    let mut model = model();
    model.browse_to(
        PathBuf::from("/cabs"),
        "/cabs",
        Ok(vec![entry("a", true), entry("b.wav", false)]),
    );
    assert!(matches!(
        model.event(UiEvent::SelectEntry(0), 0),
        Todo::List(path) if path == PathBuf::from("/cabs/a")
    ));
    assert!(matches!(
        model.event(UiEvent::SelectEntry(1), 0),
        Todo::Load(path) if path == PathBuf::from("/cabs/b.wav")
    ));
    // A row that is not there is ignored rather than panicking.
    assert!(matches!(model.select_entry(usize::MAX), Todo::Nothing));
}

#[test]
fn a_load_waits_for_the_host_to_report_its_rate() {
    for rate in [0.0f32, -1.0, f32::NAN, f32::INFINITY] {
        let mut model = model();
        assert!(!model.begin_load(rate.to_bits()), "{rate}");
        assert_eq!(model.ir_status, "the host has not started audio yet");
    }
    let mut model = model();
    assert!(model.begin_load(48_000.0f32.to_bits()));
    assert_eq!(model.ir_status, "");
}

#[test]
fn a_loaded_file_is_published_and_named() {
    let slot = IrSlot::new(IR_LENGTH);
    let mut seen = slot.current_generation();
    let mut taps = vec![0; IR_LENGTH];
    let mut model = model();
    model.browser_open = true;
    let (published, _) = model.load_cabinet(
        &slot,
        Ok(response(256)),
        "/cabs/open back.wav",
        Some("open back.wav"),
        48_000.0f32.to_bits(),
        "48000",
    );
    assert!(published);
    assert_eq!(slot.collect(&mut seen, &mut taps).0, Some(256));
    assert_eq!(model.ir_cabinet, "OPEN BACK");
    assert_eq!(model.ir_status, "open back.wav — 256 taps");
    assert!(!model.browser_open, "loading left the browser open");

    model.remember_path(true);
    assert_eq!(model.ir_status, "open back.wav — 256 taps");
    model.remember_path(false);
    assert_eq!(
        model.ir_status,
        "loaded, but this cabinet will not be saved with the project"
    );
}

#[test]
fn a_rejected_file_changes_the_status_alone() {
    let slot = IrSlot::new(16);
    let mut seen = slot.current_generation();
    let mut model = model();
    model.browser_open = true;
    let before = model.ir_cabinet.clone();
    let (published, _) = model.load_cabinet(
        &slot,
        Err(IrError::NotRiffWave),
        "/cabs/notes.wav",
        None,
        48_000.0f32.to_bits(),
        "48000",
    );
    assert!(!published);
    assert_eq!(model.ir_status, "response: not a RIFF/WAVE file");
    assert_eq!(model.ir_cabinet, before);
    assert!(model.browser_open);
    assert_eq!(slot.collect(&mut seen, &mut [0; 16]).0, None);

    let (published, _) = model.load_cabinet(
        &slot,
        Err(IrError::BadTargetRate(1.0e9f64.to_bits())),
        "/cabs/v30.wav",
        Some("v30.wav"),
        1.0e9f32.to_bits(),
        "1000000000",
    );
    assert!(!published);
    assert_eq!(
        model.ir_status,
        "v30.wav: invalid host sample rate 1000000000"
    );
}

#[test]
fn reverting_to_the_built_in_cabinet_publishes_an_empty_payload() {
    let slot = IrSlot::new(IR_LENGTH);
    let mut model = Data::new(
        PathBuf::from("/cabs"),
        "/cabs",
        "C:/cabs/whatever.wav",
        0,
    );
    assert_eq!(model.ir_cabinet, "WHATEVER");
    assert!(matches!(
        model.event(UiEvent::UseDefaultCabinet, 0),
        Todo::PublishDefault
    ));

    let mut seen = slot.current_generation();
    let mut taps = vec![0; 16];
    // The path is cleared where this says that the request went out.
    assert!(model.use_default_cabinet(&slot).0);

    assert_eq!(slot.collect(&mut seen, &mut taps).0, Some(0));
    assert_eq!(model.ir_cabinet, DEFAULT_CABINET_LABEL);
    assert_eq!(model.ir_status, "using the built-in 4x12");
}

#[test]
fn a_busy_slot_changes_the_status_alone() {
    let mut model = model();
    model.browser_open = true;
    let before = model.ir_cabinet.clone();
    let rate = 48_000.0f32.to_bits();
    model.finish_load(false, &response(256), "/cabs/v30.wav", "v30.wav", rate);
    assert_eq!(model.ir_status, "another response is still being loaded");
    assert_eq!(model.ir_cabinet, before);
    assert!(model.browser_open);

    model.finish_load(true, &response(256), "/cabs/v30.wav", "v30.wav", rate);
    assert_eq!(model.ir_status, "v30.wav — 256 taps");
    assert_eq!(model.ir_cabinet, "V30");
    assert!(!model.browser_open);

    model.browser_open = true;
    model.finish_default(false);
    assert_eq!(model.ir_status, "another response is still being loaded");
    assert_eq!(model.ir_cabinet, "V30");
    assert!(model.browser_open);

    model.finish_default(true);
    assert_eq!(model.ir_status, "using the built-in 4x12");
    assert_eq!(model.ir_cabinet, DEFAULT_CABINET_LABEL);
    assert!(!model.browser_open);
}

#[test]
fn toggling_the_browser_refreshes_the_listing_only_when_opening() {
    let mut model = model();
    assert!(!model.browser_open);
    assert!(model.ir_entries.is_empty());

    assert!(matches!(
        model.event(UiEvent::ToggleBrowser, 0),
        Todo::List(path) if path == PathBuf::from("/cabs")
    ));
    assert!(model.browser_open);
    assert_eq!(model.toggle_browser(), None);
    assert!(!model.browser_open);
    assert!(matches!(
        model.event(UiEvent::BrowseUp, 0),
        Todo::ListParent
    ));
}

#[test]
fn default_state_reports_the_specified_size() {
    assert_eq!((WINDOW_WIDTH, WINDOW_HEIGHT), (920, 340));
}

#[test]
fn the_wordmark_is_spaced_out_but_still_spells_the_brand() {
    assert_eq!(wordmark().replace(' ', ""), "AMBERHEAD");
    // Every character is separated, which is what stands in for letter spacing.
    assert!(
        wordmark().chars().skip(1).step_by(2).all(|c| c == ' '),
        "the wordmark is not evenly spaced: {}",
        wordmark()
    );
}

#[test]
fn lamp_refresh_is_fast_enough_to_show_sag() {
    // The sag envelope attacks in 8 ms and releases in 120 ms; the refresh must
    // comfortably resolve the release.
    assert!(LAMP_REFRESH_MS < 120 / 3);
}

#[test]
fn model_clamps_the_shared_lamp_level() {
    let lamp = AtomicLevel::new(5.0f32.to_bits());
    let mut data = Data::new(PathBuf::from("/cabs"), "/cabs", "", lamp.load());
    assert!(matches!(
        data.event(UiEvent::RefreshLamp, lamp.load()),
        Todo::Nothing
    ));
    assert_eq!(f32::from_bits(data.lamp_brightness), 1.0);

    lamp.store((-2.0f32).to_bits());
    data.event(UiEvent::RefreshLamp, lamp.load());
    assert_eq!(f32::from_bits(data.lamp_brightness), 0.0);
}
