//! Extraction of notes, pitch bends and controller changes from a MIDI
//! sequence, grouped by instrument, with tick times rescaled to real time
//! through the sequence's tempo map.

pub mod err;
pub mod midi;
