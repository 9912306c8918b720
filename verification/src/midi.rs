//! MIDI sequence model, per-channel event aggregation and time rescaling.

pub mod channel;
pub mod convert;
pub mod decode;
pub mod event;
pub mod inspect;
pub mod pending;
pub mod reader;
pub mod tempo;
pub mod time;
pub mod track;

pub use channel::{ChannelState, ChannelView};
pub use decode::{decode_midi_file, finds_unreadable_timing, read_midi_file};
pub use inspect::InspectMutExt;
pub use event::{
    Format, Header, MetaMessage, MidiMessage, Sequence, Timing, Track, TrackEvent, TrackEventKind,
};
pub use reader::{get_max_tick, make_track_time_absolute, read_sequence, MidiData, MidiReader};
pub use tempo::{as_tempo_change, generate_tick_scales, get_timing, TickScale, DEFAULT_TEMPO};
pub use time::{
    resolve_index, ChannelNo, ControlChange, ControlNo, ControlValue, Instrument, InstrumentView, MidiTime, Note,
    Pitch, PitchBend, PitchBendValue, ProgramNo, RealTime, TickMicros, TickTime, TimeUnit,
    Velocity,
};
pub use track::{InstrumentID, TrackState, TrackView};
