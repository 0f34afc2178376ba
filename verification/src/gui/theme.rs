//! Faceplate palette, as 8-bit `0xRRGGBB` colours.
//!
//! Every colour the faceplate uses lives here so it can be revoiced from one
//! place.

use vstd::prelude::*;

verus! {

/// The amplifier's signature orange, used for the control-bar cells.
pub const ORANGE: u32 = 0xE8620E;

/// Deeper orange for shadowed orange surfaces and printed accents.
pub const ORANGE_DEEP: u32 = 0xB44606;

/// Fill of the two orange control-bar cells.
pub const BAND_ORANGE: u32 = ORANGE;

/// Vinyl covering where the light falls, at the top of the box.
pub const TOLEX_LIT: u32 = 0xF06E14;

/// The same vinyl in shadow, at the bottom.
pub const TOLEX_SHADE: u32 = 0xCE5508;

/// Dark half of the pebbled grain in the vinyl.
pub const TOLEX_GRAIN: u32 = 0x8A3804;

/// Shadow along the box's edges and in the panel recess.
pub const TOLEX_EDGE: u32 = 0x6E2C03;

/// Moulded plastic of the corner protectors.
pub const CORNER_BODY: u32 = 0x18181A;

/// Sheen along the lit face of a corner protector.
pub const CORNER_LIT: u32 = 0x4A4A50;

/// Outline where a corner protector meets the vinyl.
pub const CORNER_EDGE: u32 = 0x0A0A0C;

/// The control panel's white face.
pub const PANEL_WHITE: u32 = 0xF9F7F2;

/// The same face where it falls into shadow at the bottom of the panel.
pub const PANEL_SHADE: u32 = 0xE4E1D9;

/// The heavy black outline around the control bar and between its cells.
pub const BAR_INK: u32 = 0x101012;

/// Screen-printed ink: glyphs and engraved detail.
pub const PANEL_INK: u32 = 0x1A1714;

/// Unlit engraved index marks.
pub const PANEL_ENGRAVE: u32 = 0x8C8474;

/// Main body of the moulded knob cap.
pub const KNOB_BODY: u32 = 0x141416;

/// Sheen where light catches the top-left of the cap.
pub const KNOB_HIGHLIGHT: u32 = 0x5A5A60;

/// Outer rim line.
pub const KNOB_RIM: u32 = 0x3C3C42;

/// Flute grooves in the rim.
pub const KNOB_FLUTE: u32 = 0x2E2E34;

/// The white indicator line.
pub const KNOB_POINTER: u32 = 0xF6F4EF;

/// Contact shadow beneath a knob.
pub const KNOB_SHADOW: u32 = 0x403626;

/// Bright core of the pilot jewel.
pub const AMBER: u32 = 0xFFA81E;

/// Deep amber at the jewel's edge and in its unlit state.
pub const AMBER_DEEP: u32 = 0x8C3E00;

/// Chrome bezel around the jewel and the toggle hardware.
pub const CHROME_LIGHT: u32 = 0xDADDE2;

/// Shadowed side of the chrome.
pub const CHROME_DARK: u32 = 0x6E747E;

/// Black phenolic base a switch is mounted in.
pub const HARDWARE_BASE: u32 = 0x1A1A1E;

/// Red, green and blue of a colour.
pub open spec fn channels(colour: u32) -> (int, int, int) {
    (colour as int / 0x1_0000 % 0x100, colour as int / 0x100 % 0x100, colour as int % 0x100)
}

/// Splits a colour into its 8-bit red, green and blue channels.
pub fn split(colour: u32) -> (rgb: (u8, u8, u8))
    ensures
        rgb.0 == channels(colour).0,
        rgb.1 == channels(colour).1,
        rgb.2 == channels(colour).2,
        colour < 0x100_0000 ==> colour == 0x1_0000 * rgb.0 + 0x100 * rgb.1 + rgb.2,
{
    (
        (colour / 0x1_0000 % 0x100) as u8,
        (colour / 0x100 % 0x100) as u8,
        (colour % 0x100) as u8,
    )
}

/// Builds a colour from its 8-bit channels.
pub fn rgb(red: u8, green: u8, blue: u8) -> (colour: u32)
    ensures
        colour == 0x1_0000 * red + 0x100 * green + blue,
{
    0x1_0000 * (red as u32) + 0x100 * (green as u32) + blue as u32
}

/// Splitting a colour gives back the channels it was built from.
pub proof fn law_channels_round_trip(red: u8, green: u8, blue: u8)
    ensures
        channels((0x1_0000 * red + 0x100 * green + blue) as u32) == (
            red as int,
            green as int,
            blue as int,
        ),
{
}

} // verus!
