//! Cabinet impulse response browser.

use std::path::PathBuf;

use vstd::prelude::*;
use vstd::string::*;

use crate::cells::Log;
use crate::gui::{Data as EditorData, Todo};
use crate::ieee;
use crate::ir;
use crate::ir::{DirectoryEntry, IrError, LoadedIr};
use crate::shared::{IrSlot, Published, SlotStore};
use crate::text;
use crate::text::{decimal, uppercase};

verus! {

/// Label shown when the built-in cabinet is in use.
pub const DEFAULT_CABINET_LABEL: &'static str = "4x12 BUILT-IN";

/// Longest cabinet name the launcher button shows before eliding.
pub const MAX_CABINET_LABEL: usize = 16;

/// Longest directory the path strip shows before eliding.
pub const MAX_DIRECTORY: usize = 58;

// ---------------------------------------------------------------------------
// Captions
// ---------------------------------------------------------------------------

/// A cabinet name as the launcher button shows it.
pub open spec fn short_label_text(name: Seq<char>) -> Seq<char> {
    if name.len() <= MAX_CABINET_LABEL {
        text::uppercase_text(name)
    } else {
        "…"@ + text::uppercase_text(name.skip(name.len() - (MAX_CABINET_LABEL - 1)))
    }
}

/// An ASCII cabinet name as the launcher button shows it, letter by letter.
pub open spec fn ascii_label_text(name: Seq<char>) -> Seq<char> {
    let raised = name.map_values(|c: char| text::ascii_upper(c));
    if name.len() <= MAX_CABINET_LABEL {
        raised
    } else {
        "…"@ + raised.skip(name.len() - (MAX_CABINET_LABEL - 1))
    }
}

/// Whether `label` is `name` as the launcher button shows it.
pub open spec fn labels(label: Seq<char>, name: Seq<char>) -> bool {
    &&& label == short_label_text(name)
    &&& text::all_ascii(name) ==> label == ascii_label_text(name)
}

/// A directory as the path strip shows it.
pub open spec fn directory_text(full: Seq<char>) -> Seq<char> {
    let slashed = with_slashes(full);
    if slashed.len() <= MAX_DIRECTORY {
        slashed
    } else {
        "…"@ + slashed.skip(slashed.len() - (MAX_DIRECTORY - 1))
    }
}

/// A path with `/` in place of every `\`.
pub open spec fn with_slashes(path: Seq<char>) -> Seq<char> {
    path.map_values(
        |c: char|
            if c == '\\' {
                '/'
            } else {
                c
            },
    )
}

/// Shortens a cabinet name to fit the launcher button.
///
/// Keeps the tail, because IR libraries name files by prefixing a common
/// cabinet name onto the part that actually varies.
pub fn short_cabinet_label(name: &str) -> (label: String)
    ensures
        labels(label@, name@),
{
    let length: usize = name.unicode_len();
    if length <= MAX_CABINET_LABEL {
        return uppercase(name);
    }
    let tail: &str = name.substring_char(length - (MAX_CABINET_LABEL - 1), length);
    assert(tail@ =~= name@.skip(length - (MAX_CABINET_LABEL - 1)));
    let mut label: String = String::from_str("…");
    label.append(uppercase(tail).as_str());
    proof {
        reveal_strlit("…");
        if text::all_ascii(name@) {
            assert forall|i: int| 0 <= i < tail@.len() implies (#[trigger] tail@[i] as int)
                < 0x80 by {
                assert(tail@[i] == name@[length - (MAX_CABINET_LABEL - 1) + i]);
            }
            assert(text::all_ascii(tail@));
            assert(label@ =~= ascii_label_text(name@));
        }
    }
    label
}

/// Wraps `Path::file_stem` on a path given as text: the file name without its
/// extension, and nothing where there is no file name. What separates
/// directories differs between systems, so which part of the path that is is
/// left unsaid of paths that do not read alike on them.
#[verifier::external_body]
fn path_stem(path: &str) -> (stem: Option<String>)
    ensures
        ir::reads_alike(path@) ==> match stem {
            Some(text) => ir::path_stem_of(path@) == Some(text@),
            None => ir::path_stem_of(path@) is None,
        },
        stem matches Some(text) ==> ir::occurs_in(path@, text@),
{
    std::path::Path::new(path).file_stem().and_then(|part| part.to_str()).map(
        |part| part.to_string(),
    )
}

/// Button caption for a response whose file stem is `stem`.
pub fn stem_label(stem: Option<&str>) -> (label: String)
    ensures
        match stem {
            Some(stem) => labels(label@, stem@),
            None => label@ == DEFAULT_CABINET_LABEL@,
        },
{
    match stem {
        Some(stem) => short_cabinet_label(stem),
        None => String::from_str(DEFAULT_CABINET_LABEL),
    }
}

/// Whether `label` is the button caption for the response at `path`: the name
/// of the file, and that of the built-in cabinet where the path names no file.
/// Of a path that does not read alike on all systems, only that the caption is
/// one of those, of some part of the path.
pub open spec fn captions(label: Seq<char>, path: Seq<char>) -> bool {
    &&& path.len() == 0 ==> label == DEFAULT_CABINET_LABEL@
    &&& ir::reads_alike(path) ==> match ir::path_stem_of(path) {
        Some(stem) => labels(label, stem),
        None => label == DEFAULT_CABINET_LABEL@,
    }
    &&& label == DEFAULT_CABINET_LABEL@ || exists|stem: Seq<char>|
        ir::occurs_in(path, stem) && #[trigger] labels(label, stem)
}

/// Button caption for the response at `path`, which may be empty.
pub fn cabinet_label(path: &str) -> (label: String)
    ensures
        captions(label@, path@),
{
    if path.unicode_len() == 0 {
        return String::from_str(DEFAULT_CABINET_LABEL);
    }
    match path_stem(path) {
        Some(stem) => stem_label(Some(stem.as_str())),
        None => stem_label(None),
    }
}

/// Renders a directory for the path strip.
///
/// Long paths are elided from the left, keeping the folders nearest the files,
/// which is the part that tells the user where they are.
pub fn display_directory(full: &str) -> (shown: String)
    ensures
        shown@ == directory_text(full@),
        shown@.len() <= MAX_DIRECTORY,
{
    let slashed: String = slashes(full);
    let length: usize = slashed.as_str().unicode_len();
    if length <= MAX_DIRECTORY {
        return slashed;
    }
    let tail: &str = slashed.as_str().substring_char(length - (MAX_DIRECTORY - 1), length);
    assert(tail@ =~= slashed@.skip(length - (MAX_DIRECTORY - 1)));
    let mut shown: String = String::from_str("…");
    shown.append(tail);
    proof {
        reveal_strlit("…");
    }
    shown
}

/// Writes `/` in place of every `\`.
fn slashes(path: &str) -> (slashed: String)
    ensures
        slashed@ == with_slashes(path@),
{
    let length: usize = path.unicode_len();
    let mut slashed: String = String::new();
    let mut i: usize = 0;
    while i < length
        invariant
            length == path@.len(),
            i <= length,
            slashed@ == with_slashes(path@).take(i as int),
        decreases length - i,
    {
        proof {
            reveal_strlit("/");
        }
        if path.get_char(i) == '\\' {
            slashed.append("/");
        } else {
            slashed.append(path.substring_char(i, i + 1));
        }
        assert(slashed@ =~= with_slashes(path@).take(i + 1));
        i = i + 1;
    }
    assert(with_slashes(path@).take(length as int) =~= with_slashes(path@));
    slashed
}

/// Caption of one row of the listing: folders carry a marker, files are
/// indented by as much.
pub fn row_caption(entry: &DirectoryEntry) -> (caption: String)
    ensures
        caption@ == if entry.is_directory {
            "▸  "@ + entry.label@
        } else {
            "     "@ + entry.label@
        },
{
    let mut caption: String = if entry.is_directory {
        String::from_str("▸  ")
    } else {
        String::from_str("     ")
    };
    caption.append(entry.label.as_str());
    caption
}

/// One-line summary of what was loaded.
pub open spec fn summary_text(loaded: LoadedIr, name: Seq<char>, sample_rate: u32) -> Seq<char> {
    name + " — "@ + text::decimal_text(loaded.taps@.len()) + " taps"@ + (if ieee::equal(
        ieee::fraction_of(loaded.source_rate as int, 0),
        sample_rate,
    ) {
        seq![]
    } else {
        ", resampled "@ + text::decimal_text(loaded.source_rate as nat) + " → "@
            + text::decimal_text(ieee::whole_part(sample_rate) as nat) + " Hz"@
    }) + (if loaded.source_channels > 1 {
        ", channel 1 of "@ + text::decimal_text(loaded.source_channels as nat)
    } else {
        seq![]
    }) + (if loaded.truncated {
        ", tail trimmed"@
    } else {
        seq![]
    })
}

/// One-line summary of what was loaded, for the status strip. `sample_rate` is
/// the host's, a single-precision pattern.
pub fn describe(loaded: &LoadedIr, name: &str, sample_rate: u32) -> (summary: String)
    ensures
        summary@ == summary_text(*loaded, name@, sample_rate),
{
    let mut summary: String = String::from_str(name);
    summary.append(" — ");
    summary.append(decimal(loaded.taps.len() as u64).as_str());
    summary.append(" taps");
    let ghost head = summary@;
    let mut rate_part: String = String::new();
    if !ieee::is_equal(ieee::from_integer(loaded.source_rate), sample_rate) {
        rate_part.append(", resampled ");
        rate_part.append(decimal(loaded.source_rate as u64).as_str());
        rate_part.append(" → ");
        rate_part.append(decimal(ieee::to_integer(sample_rate) as u64).as_str());
        rate_part.append(" Hz");
        assert(rate_part@ =~= ", resampled "@ + text::decimal_text(loaded.source_rate as nat)
            + " → "@ + text::decimal_text(ieee::whole_part(sample_rate) as nat) + " Hz"@);
    }
    let mut channel_part: String = String::new();
    if loaded.source_channels > 1 {
        channel_part.append(", channel 1 of ");
        channel_part.append(decimal(loaded.source_channels as u64).as_str());
        assert(channel_part@ =~= ", channel 1 of "@ + text::decimal_text(
            loaded.source_channels as nat,
        ));
    }
    summary.append(rate_part.as_str());
    summary.append(channel_part.as_str());
    if loaded.truncated {
        summary.append(", tail trimmed");
    }
    assert(summary@ =~= summary_text(*loaded, name@, sample_rate));
    summary
}

// ---------------------------------------------------------------------------
// What the browser does
// ---------------------------------------------------------------------------

/// What selecting a row leads to.
pub open spec fn selection(entries: Seq<DirectoryEntry>, index: usize) -> Todo {
    if index >= entries.len() {
        Todo::Nothing
    } else if entries[index as int].is_directory {
        Todo::List(entries[index as int].path)
    } else {
        Todo::Load(entries[index as int].path)
    }
}

/// Whether a rate, a single-precision pattern, is a number above zero.
pub open spec fn usable_rate(sample_rate: u32) -> bool {
    ieee::finite(sample_rate) && ieee::units(sample_rate) > 0
}

impl EditorData {
    /// Takes the listing of `directory` and makes it the browser's current
    /// location. `shown` is how the directory reads.
    ///
    /// A directory that cannot be read leaves the previous listing in place and
    /// reports why, rather than dropping the user into an empty view with no
    /// explanation.
    pub fn browse_to(
        &mut self,
        directory: PathBuf,
        shown: &str,
        listing: Result<Vec<DirectoryEntry>, IrError>,
    )
        ensures
            final(self).lamp_brightness == old(self).lamp_brightness,
            final(self).browser_open == old(self).browser_open,
            final(self).ir_cabinet == old(self).ir_cabinet,
            match listing {
                Ok(entries) => {
                    &&& final(self).ir_location == directory
                    &&& final(self).ir_directory@ == directory_text(shown@)
                    &&& final(self).ir_entries == entries
                    &&& final(self).ir_status@ == if entries@.len() == 0 {
                        "no folders or WAV files here"@
                    } else {
                        seq![]
                    }
                },
                Err(error) => {
                    &&& final(self).ir_location == old(self).ir_location
                    &&& final(self).ir_directory == old(self).ir_directory
                    &&& final(self).ir_entries == old(self).ir_entries
                    &&& final(self).ir_status@ == "cannot open folder: "@ + ir::message_text(
                        error,
                        seq![],
                    )
                },
            },
    {
        match listing {
            Ok(entries) => {
                self.ir_status = if entries.len() == 0 {
                    String::from_str("no folders or WAV files here")
                } else {
                    String::new()
                };
                self.ir_entries = entries;
                self.ir_directory = display_directory(shown);
                self.ir_location = directory;
            },
            Err(error) => {
                proof {
                    reveal_strlit("");
                    assert(""@ =~= Seq::<char>::empty());
                }
                let mut status: String = String::from_str("cannot open folder: ");
                status.append(error.message("").as_str());
                self.ir_status = status;
            },
        }
    }

    /// Finds where to go from the current directory. `parent` is the directory
    /// above it, and `nowhere` says that its path is empty; either way there is
    /// nothing above the top.
    pub fn browse_up(&mut self, parent: Option<PathBuf>, nowhere: bool) -> (target: Option<PathBuf>)
        ensures
            target == match parent {
                Some(parent) if !nowhere => Some(parent),
                _ => None,
            },
            final(self).ir_status@ == if target is None {
                "already at the top"@
            } else {
                old(self).ir_status@
            },
            final(self).lamp_brightness == old(self).lamp_brightness,
            final(self).browser_open == old(self).browser_open,
            final(self).ir_location == old(self).ir_location,
            final(self).ir_directory == old(self).ir_directory,
            final(self).ir_entries == old(self).ir_entries,
            final(self).ir_cabinet == old(self).ir_cabinet,
    {
        if let Some(parent) = parent {
            if !nowhere {
                return Some(parent);
            }
        }
        self.ir_status = String::from_str("already at the top");
        None
    }

    /// Acts on the row at `index`: navigates into a folder, or loads a file.
    /// There is nothing to do about a row that is not there.
    pub fn select_entry(&self, index: usize) -> (todo: Todo)
        ensures
            todo == selection(self.ir_entries@, index),
    {
        if index >= self.ir_entries.len() {
            return Todo::Nothing;
        }
        let path: PathBuf = self.ir_entries[index].path.clone();
        if self.ir_entries[index].is_directory {
            Todo::List(path)
        } else {
            Todo::Load(path)
        }
    }

    /// Decides whether a response can be loaded at all: before the host has
    /// reported its rate there is nothing to resample to, so the load is
    /// refused rather than guessed at.
    pub fn begin_load(&mut self, sample_rate: u32) -> (possible: bool)
        ensures
            possible == usable_rate(sample_rate),
            possible == (0 < sample_rate < 0x7F80_0000),
            final(self).ir_status@ == if possible {
                old(self).ir_status@
            } else {
                "the host has not started audio yet"@
            },
            final(self).lamp_brightness == old(self).lamp_brightness,
            final(self).browser_open == old(self).browser_open,
            final(self).ir_location == old(self).ir_location,
            final(self).ir_directory == old(self).ir_directory,
            final(self).ir_entries == old(self).ir_entries,
            final(self).ir_cabinet == old(self).ir_cabinet,
    {
        proof {
            assert(ieee::units(0) == 0);
            if ieee::magnitude(sample_rate) > 0 {
                ieee::lemma_units_increase(0, ieee::magnitude(sample_rate));
            }
        }
        if ieee::is_finite(sample_rate) && ieee::is_below(0, sample_rate) {
            true
        } else {
            self.ir_status = String::from_str("the host has not started audio yet");
            false
        }
    }

    /// Publishes a loaded response to the audio thread, and reports.
    ///
    /// `loading` is what decoding the file at `path` gave, `name` is the file's
    /// name where it is text, `sample_rate` the host's rate and `host_rate` how
    /// that rate reads. Returns whether the response was published, and the
    /// writes made to the slot; only a published response's path is to be
    /// remembered.
    pub fn load_cabinet(
        &mut self,
        slot: &IrSlot,
        loading: Result<LoadedIr, IrError>,
        path: &str,
        name: Option<&str>,
        sample_rate: u32,
        host_rate: &str,
    ) -> (outcome: (bool, Published))
        ensures
            match loading {
                Ok(loaded) if outcome.0 => exists|generation: u32|
                    outcome.1.writes@ == #[trigger] crate::shared::publish_writes(
                        generation,
                        loaded.taps@,
                        slot.room(),
                    ),
                _ => outcome.1.writes@ == Seq::<SlotStore>::empty(),
            },
            match loading {
                Ok(loaded) => slot.publishes(loaded.taps@, outcome.0, outcome.1),
                Err(_) => outcome.1.log@.len() == 0,
            },
            final(self).lamp_brightness == old(self).lamp_brightness,
            final(self).ir_location == old(self).ir_location,
            final(self).ir_directory == old(self).ir_directory,
            final(self).ir_entries == old(self).ir_entries,
            outcome.0 ==> loading is Ok,
            final(self).browser_open == (old(self).browser_open && !outcome.0),
            !outcome.0 ==> final(self).ir_cabinet == old(self).ir_cabinet,
            outcome.0 ==> captions(final(self).ir_cabinet@, path@),
            final(self).ir_status@ == match loading {
                Err(error) => shown_name(name) + ": "@ + ir::message_text(error, host_rate@),
                Ok(loaded) => if outcome.0 {
                    summary_text(loaded, shown_name(name), sample_rate)
                } else {
                    "another response is still being loaded"@
                },
            },
    {
        let name: &str = match name {
            Some(name) => name,
            None => "response",
        };
        let loaded: LoadedIr = match loading {
            Ok(loaded) => loaded,
            Err(error) => {
                let mut status: String = String::from_str(name);
                status.append(": ");
                status.append(error.message(host_rate).as_str());
                self.ir_status = status;
                return (false, Published { writes: Ghost(Seq::empty()), log: Log::new() });
            },
        };
        let outcome: (bool, Published) = slot.publish(loaded.taps.as_slice());
        self.finish_load(outcome.0, &loaded, path, name, sample_rate);
        outcome
    }

    /// Ends a load whose response was handed to the slot. A published one gives
    /// the button its caption, is summed up in the status strip and closes the
    /// browser; with one that was not, only the status changes.
    pub fn finish_load(
        &mut self,
        published: bool,
        loaded: &LoadedIr,
        path: &str,
        name: &str,
        sample_rate: u32,
    )
        ensures
            final(self).lamp_brightness == old(self).lamp_brightness,
            final(self).ir_location == old(self).ir_location,
            final(self).ir_directory == old(self).ir_directory,
            final(self).ir_entries == old(self).ir_entries,
            final(self).browser_open == (old(self).browser_open && !published),
            published ==> captions(final(self).ir_cabinet@, path@),
            !published ==> final(self).ir_cabinet == old(self).ir_cabinet,
            final(self).ir_status@ == if published {
                summary_text(*loaded, name@, sample_rate)
            } else {
                "another response is still being loaded"@
            },
    {
        if !published {
            self.ir_status = String::from_str("another response is still being loaded");
            return;
        }
        self.ir_cabinet = cabinet_label(path);
        self.ir_status = describe(loaded, name, sample_rate);
        self.browser_open = false;
    }

    /// Goes back to the synthesised 4x12. Returns whether the request was
    /// published, and the writes made to the slot; only with a published request
    /// is the remembered path to be cleared.
    pub fn use_default_cabinet(&mut self, slot: &IrSlot) -> (outcome: (
        bool,
        Published,
    ))
        ensures
            outcome.0 ==> exists|generation: u32|
                outcome.1.writes@ == #[trigger] crate::shared::publish_writes(
                    generation,
                    Seq::<u32>::empty(),
                    slot.room(),
                ),
            !outcome.0 ==> outcome.1.writes@ == Seq::<SlotStore>::empty(),
            slot.publishes(Seq::<u32>::empty(), outcome.0, outcome.1),
            final(self).lamp_brightness == old(self).lamp_brightness,
            final(self).ir_location == old(self).ir_location,
            final(self).ir_directory == old(self).ir_directory,
            final(self).ir_entries == old(self).ir_entries,
            final(self).browser_open == (old(self).browser_open && !outcome.0),
            final(self).ir_cabinet@ == if outcome.0 {
                DEFAULT_CABINET_LABEL@
            } else {
                old(self).ir_cabinet@
            },
            final(self).ir_status@ == if outcome.0 {
                "using the built-in 4x12"@
            } else {
                "another response is still being loaded"@
            },
    {
        let outcome: (bool, Published) = slot.publish_default();
        self.finish_default(outcome.0);
        outcome
    }

    /// Ends a return to the built-in cabinet whose request was handed to the
    /// slot. A published one names the cabinet and closes the browser; with one
    /// that was not, only the status changes.
    pub fn finish_default(&mut self, published: bool)
        ensures
            final(self).lamp_brightness == old(self).lamp_brightness,
            final(self).ir_location == old(self).ir_location,
            final(self).ir_directory == old(self).ir_directory,
            final(self).ir_entries == old(self).ir_entries,
            final(self).browser_open == (old(self).browser_open && !published),
            published ==> final(self).ir_cabinet@ == DEFAULT_CABINET_LABEL@,
            !published ==> final(self).ir_cabinet == old(self).ir_cabinet,
            final(self).ir_status@ == if published {
                "using the built-in 4x12"@
            } else {
                "another response is still being loaded"@
            },
    {
        if !published {
            self.ir_status = String::from_str("another response is still being loaded");
            return;
        }
        self.ir_cabinet = String::from_str(DEFAULT_CABINET_LABEL);
        self.ir_status = String::from_str("using the built-in 4x12");
        self.browser_open = false;
    }

    /// Opens or closes the browser, and says what to list on the way in.
    pub fn toggle_browser(&mut self) -> (listing: Option<PathBuf>)
        ensures
            final(self).browser_open == !old(self).browser_open,
            listing == if final(self).browser_open {
                Some(old(self).ir_location)
            } else {
                None
            },
            final(self).lamp_brightness == old(self).lamp_brightness,
            final(self).ir_location == old(self).ir_location,
            final(self).ir_directory == old(self).ir_directory,
            final(self).ir_entries == old(self).ir_entries,
            final(self).ir_cabinet == old(self).ir_cabinet,
            final(self).ir_status == old(self).ir_status,
    {
        self.browser_open = !self.browser_open;
        if self.browser_open {
            Some(self.ir_location.clone())
        } else {
            None
        }
    }

    /// Takes note of whether the path of a published response could be saved
    /// with the project. The response itself is audible either way; only the
    /// memory of it across a session reload is lost, so this reports rather
    /// than undoing the load.
    pub fn remember_path(&mut self, saved: bool)
        ensures
            final(self).ir_status@ == if saved {
                old(self).ir_status@
            } else {
                "loaded, but this cabinet will not be saved with the project"@
            },
            final(self).lamp_brightness == old(self).lamp_brightness,
            final(self).browser_open == old(self).browser_open,
            final(self).ir_location == old(self).ir_location,
            final(self).ir_directory == old(self).ir_directory,
            final(self).ir_entries == old(self).ir_entries,
            final(self).ir_cabinet == old(self).ir_cabinet,
    {
        if !saved {
            self.ir_status = String::from_str(
                "loaded, but this cabinet will not be saved with the project",
            );
        }
    }
}

/// The name a response is reported under.
pub open spec fn shown_name(name: Option<&str>) -> Seq<char> {
    match name {
        Some(name) => name@,
        None => "response"@,
    }
}

// ---------------------------------------------------------------------------
// What captions guarantee
// ---------------------------------------------------------------------------

/// A cabinet name fits the launcher button, and the label ends as the name does,
/// if the name is ASCII; any other name fits where the capitals of the part
/// shown take no more characters than that part.
pub proof fn law_cabinet_labels_fit(label: Seq<char>, name: Seq<char>)
    requires
        labels(label, name),
    ensures
        text::all_ascii(name) ==> {
            &&& label.len() <= MAX_CABINET_LABEL
            &&& name.len() > 0 ==> label.len() > 0 && label.last() == text::ascii_upper(
                name.last(),
            )
        },
        ({
            let shown = if name.len() <= MAX_CABINET_LABEL {
                name
            } else {
                name.skip(name.len() - (MAX_CABINET_LABEL - 1))
            };
            text::uppercase_text(shown).len() <= shown.len() ==> label.len() <= MAX_CABINET_LABEL
        }),
{
    reveal_strlit("…");
}

/// An ASCII name is shown in capitals, whole where it fits, and otherwise as its
/// last fifteen characters behind an ellipsis.
pub proof fn law_labels_keep_the_end(label: Seq<char>, name: Seq<char>, i: int)
    requires
        labels(label, name),
        text::all_ascii(name),
        0 <= i,
    ensures
        name.len() <= 16 ==> label.len() == name.len() && (i < name.len() ==> label[i]
            == text::ascii_upper(name[i])),
        name.len() > 16 ==> label.len() == 16 && label[0] == '…' && (1 <= i < 16 ==> label[i]
            == text::ascii_upper(name[name.len() - 16 + i])),
{
    reveal_strlit("…");
}

/// Any name is shown in capitals, whole up to sixteen characters, and otherwise
/// from the fifteenth from its end on, behind an ellipsis.
pub proof fn law_labels_are_capitals(label: Seq<char>, name: Seq<char>)
    requires
        labels(label, name),
    ensures
        name.len() <= 16 ==> label == text::uppercase_text(name),
        name.len() > 16 ==> label == seq!['…'] + text::uppercase_text(
            name.subrange(name.len() - 15, name.len() as int),
        ),
{
    reveal_strlit("…");
    assert("…"@ =~= seq!['…']);
    if name.len() > 16 {
        assert(name.skip(name.len() - 15) =~= name.subrange(name.len() - 15, name.len() as int));
    }
}

/// The caption of a response is the name of its file, without directory and
/// extension.
pub proof fn law_captions_name_the_file(
    label: Seq<char>,
    directory: Seq<char>,
    stem: Seq<char>,
    extension: Seq<char>,
)
    requires
        captions(label, directory + seq!['/'] + (stem + seq!['.'] + extension)),
        ir::reads_alike(directory + seq!['/'] + (stem + seq!['.'] + extension)),
        stem.len() > 0,
        !stem.contains('/'),
        !extension.contains('/'),
        !extension.contains('.'),
        extension.len() > 0,
    ensures
        labels(label, stem),
{
    let name = stem + seq!['.'] + extension;
    assert(name.len() >= 3);
    assert(seq!['.'].len() == 1 && seq!['.', '.'].len() == 2);
    assert forall|i: int| 0 <= i < name.len() implies name[i] != '/' by {
        if i < stem.len() {
            assert(stem.contains(stem[i]));
        } else if i > stem.len() {
            assert(extension.contains(extension[i - stem.len() - 1]));
        }
    }
    ir::law_a_path_ends_in_its_name(directory, name);
    ir::law_a_name_ends_in_its_extension(stem, extension);
}

/// What is said of a loaded response: its name and number of taps always, and
/// further whether it was resampled, that the first of several channels was
/// taken, and that its tail was cut.
pub proof fn law_summaries(loaded: LoadedIr, name: Seq<char>, sample_rate: u32)
    ensures
        ({
            let taps = name + " — "@ + text::decimal_text(loaded.taps@.len()) + " taps"@;
            let kept = ieee::equal(ieee::fraction_of(loaded.source_rate as int, 0), sample_rate);
            let rates = ", resampled "@ + text::decimal_text(loaded.source_rate as nat) + " → "@
                + text::decimal_text(ieee::whole_part(sample_rate) as nat) + " Hz"@;
            let channels = ", channel 1 of "@ + text::decimal_text(loaded.source_channels as nat);
            let summary = summary_text(loaded, name, sample_rate);
            &&& kept && loaded.source_channels <= 1 && !loaded.truncated ==> summary == taps
            &&& !kept && loaded.source_channels <= 1 && !loaded.truncated ==> summary == taps
                + rates
            &&& kept && loaded.source_channels > 1 && !loaded.truncated ==> summary == taps
                + channels
            &&& kept && loaded.source_channels <= 1 && loaded.truncated ==> summary == taps
                + ", tail trimmed"@
            &&& !kept && loaded.source_channels > 1 && loaded.truncated ==> summary == taps + rates
                + channels + ", tail trimmed"@
        }),
{
    let taps = name + " — "@ + text::decimal_text(loaded.taps@.len()) + " taps"@;
    let rates = ", resampled "@ + text::decimal_text(loaded.source_rate as nat) + " → "@
        + text::decimal_text(ieee::whole_part(sample_rate) as nat) + " Hz"@;
    let channels = ", channel 1 of "@ + text::decimal_text(loaded.source_channels as nat);
    let summary = summary_text(loaded, name, sample_rate);
    let kept = ieee::equal(ieee::fraction_of(loaded.source_rate as int, 0), sample_rate);
    if kept && loaded.source_channels <= 1 && !loaded.truncated {
        assert(summary =~= taps);
    }
    if !kept && loaded.source_channels <= 1 && !loaded.truncated {
        assert(summary =~= taps + rates);
    }
    if kept && loaded.source_channels > 1 && !loaded.truncated {
        assert(summary =~= taps + channels);
    }
    if kept && loaded.source_channels <= 1 && loaded.truncated {
        assert(summary =~= taps + ", tail trimmed"@);
    }
    if !kept && loaded.source_channels > 1 && loaded.truncated {
        assert(summary =~= taps + rates + channels + ", tail trimmed"@);
    }
}

/// Selecting a row opens the folder or loads the file it shows, and nothing for
/// a row that is not there.
pub proof fn law_rows_lead_where_they_show(entries: Seq<DirectoryEntry>, index: usize)
    ensures
        index < entries.len() && entries[index as int].is_directory ==> selection(entries, index)
            == Todo::List(entries[index as int].path),
        index < entries.len() && !entries[index as int].is_directory ==> selection(entries, index)
            == Todo::Load(entries[index as int].path),
        index >= entries.len() ==> selection(entries, index) == Todo::Nothing,
{
}

/// A directory is shown character by character, with `/` for a backslash, and
/// where it is too long as its last 57 characters behind an ellipsis.
pub proof fn law_directories_keep_the_end(full: Seq<char>, i: int)
    requires
        0 <= i,
    ensures
        full.len() <= 58 ==> directory_text(full).len() == full.len() && (i < full.len()
            ==> directory_text(full)[i] == (if full[i] == '\\' {
            '/'
        } else {
            full[i]
        })),
        full.len() > 58 ==> directory_text(full).len() == 58 && directory_text(full)[0] == '…' && (
        1 <= i < 58 ==> directory_text(full)[i] == (if full[full.len() - 58 + i] == '\\' {
            '/'
        } else {
            full[full.len() - 58 + i]
        })),
{
    reveal_strlit("…");
}

/// A directory fits the path strip, has no backslash in it, and ends as the
/// path does.
pub proof fn law_directories_fit(full: Seq<char>)
    ensures
        directory_text(full).len() <= MAX_DIRECTORY,
        !directory_text(full).contains('\\'),
        full.len() > 0 ==> directory_text(full).len() > 0 && directory_text(full).last()
            == with_slashes(full).last(),
{
    reveal_strlit("…");
    let slashed = with_slashes(full);
    let shown = directory_text(full);
    assert forall|i: int| 0 <= i < slashed.len() implies slashed[i] != '\\' by {}
    assert forall|i: int| 0 <= i < shown.len() implies shown[i] != '\\' by {
        if slashed.len() > MAX_DIRECTORY && i > 0 {
            let tail = slashed.skip(slashed.len() - (MAX_DIRECTORY - 1));
            assert(shown[i] == tail[i - 1]);
            assert(tail[i - 1] == slashed[slashed.len() - (MAX_DIRECTORY - 1) + i - 1]);
        }
    }
}

} // verus!
