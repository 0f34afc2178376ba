//! Signal-path logic: which values are safe, when work is due, and where
//! samples, spectra and table entries are found.

pub mod cabinet;
pub mod cabinet_laws;
pub mod denormal;
pub mod engine;
pub mod filters;
pub mod power;
pub mod tonestack;
pub mod triode;
