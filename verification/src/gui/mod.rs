//! The faceplate's logic: what the browser does, what a gesture means, where
//! things are and what they are called.

use std::path::PathBuf;

use vstd::prelude::*;
use vstd::string::*;

use crate::dsp::filters::ONE;
use crate::ieee;
use crate::ir::DirectoryEntry;

pub mod browser;
pub mod chassis;
pub mod controls;
pub mod glyphs;
pub mod jewel;
pub mod knob;
pub mod switch;
pub mod theme;

verus! {

/// Editor width in logical pixels.
pub const WINDOW_WIDTH: u32 = 920;

/// Editor height in logical pixels.
pub const WINDOW_HEIGHT: u32 = 340;

/// Refresh interval of the jewel lamp, in milliseconds: fast enough to show the
/// rail sagging without redrawing a static faceplate.
pub const LAMP_REFRESH_MS: u64 = 33;

/// The brand wordmark, spaced character by character.
pub fn wordmark() -> (text: &'static str)
    ensures
        text@ == "A M B E R H E A D"@,
{
    "A M B E R H E A D"
}

/// Editor model.
pub struct Data {
    /// Brightness the lamp is drawn with, a pattern in `0.0..=1.0`.
    pub lamp_brightness: u32,
    /// Whether the browser overlay is showing.
    pub browser_open: bool,
    /// Directory the browser is listing.
    pub ir_location: PathBuf,
    /// That directory, rendered for the path strip.
    pub ir_directory: String,
    /// Rows of the current listing.
    pub ir_entries: Vec<DirectoryEntry>,
    /// Caption on the launcher button.
    pub ir_cabinet: String,
    /// Last thing the browser has to say, shown along the bottom of the panel.
    pub ir_status: String,
}

/// Editor-internal events.
#[derive(Debug, Clone, Copy, PartialEq, Eq, Structural)]
pub enum UiEvent {
    /// Sample the shared lamp level.
    RefreshLamp,
    /// Show or hide the impulse response browser.
    ToggleBrowser,
    /// Move to the parent directory.
    BrowseUp,
    /// Act on the row at this index of the current listing.
    SelectEntry(usize),
    /// Go back to the synthesised 4x12.
    UseDefaultCabinet,
}

/// What the editor has to do outside the model.
pub enum Todo {
    /// Nothing.
    Nothing,
    /// List this directory and browse to it.
    List(PathBuf),
    /// Find the parent of the current directory and browse up.
    ListParent,
    /// Load the response at this path.
    Load(PathBuf),
    /// Publish the request for the built-in cabinet.
    PublishDefault,
}

impl Data {
    /// The model of an editor that opens at `location`, with the response at
    /// `ir_path` in use. `shown` is how the location reads.
    pub fn new(location: PathBuf, shown: &str, ir_path: &str, lamp: u32) -> (data: Self)
        ensures
            data.lamp_brightness == lamp,
            !data.browser_open,
            data.ir_location == location,
            data.ir_directory@ == browser::directory_text(shown@),
            data.ir_entries@ == Seq::<DirectoryEntry>::empty(),
            browser::captions(data.ir_cabinet@, ir_path@),
            data.ir_status@ == Seq::<char>::empty(),
    {
        Data {
            lamp_brightness: lamp,
            browser_open: false,
            ir_location: location,
            ir_directory: browser::display_directory(shown),
            ir_entries: Vec::new(),
            ir_cabinet: browser::cabinet_label(ir_path),
            ir_status: String::new(),
        }
    }

    /// Takes an event. `lamp` is the level the audio thread shows at the
    /// moment.
    pub fn event(&mut self, event: UiEvent, lamp: u32) -> (todo: Todo)
        ensures
            final(self).lamp_brightness == if event == UiEvent::RefreshLamp {
                ieee::clamped(lamp, 0, ONE)
            } else {
                old(self).lamp_brightness
            },
            final(self).browser_open == (old(self).browser_open != (event
                == UiEvent::ToggleBrowser)),
            final(self).ir_location == old(self).ir_location,
            final(self).ir_directory == old(self).ir_directory,
            final(self).ir_entries == old(self).ir_entries,
            final(self).ir_cabinet == old(self).ir_cabinet,
            final(self).ir_status == old(self).ir_status,
            todo == match event {
                UiEvent::RefreshLamp => Todo::Nothing,
                UiEvent::ToggleBrowser => if old(self).browser_open {
                    Todo::Nothing
                } else {
                    Todo::List(old(self).ir_location)
                },
                UiEvent::BrowseUp => Todo::ListParent,
                UiEvent::SelectEntry(index) => browser::selection(old(self).ir_entries@, index),
                UiEvent::UseDefaultCabinet => Todo::PublishDefault,
            },
    {
        match event {
            UiEvent::RefreshLamp => {
                self.lamp_brightness = ieee::clamp(lamp, 0, ONE);
                Todo::Nothing
            },
            UiEvent::ToggleBrowser => match self.toggle_browser() {
                Some(location) => Todo::List(location),
                None => Todo::Nothing,
            },
            UiEvent::BrowseUp => Todo::ListParent,
            UiEvent::SelectEntry(index) => self.select_entry(index),
            UiEvent::UseDefaultCabinet => Todo::PublishDefault,
        }
    }
}

} // verus!
