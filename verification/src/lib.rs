//! Verified core of the AmberHead OR100 guitar amplifier.

pub mod cells;
pub mod dsp;
pub mod gui;
pub mod ieee;
pub mod ir;
pub mod params;
pub mod shared;
pub mod slot_laws;
pub mod slot_memory;
pub mod text;
pub mod wav_laws;
