//! NoteHolder: a multi-note sustain pad MIDI generator.
//!
//! The library holds the plugin's logic: the keyboard geometry in exact units,
//! note naming, hit selection on the keyboard, the parameter model, and the
//! note engine that turns held keys into NoteOn / NoteOff events.

pub mod keys;
pub mod names;
pub mod params;
pub mod engine;
pub mod laws;
pub mod key_laws;
