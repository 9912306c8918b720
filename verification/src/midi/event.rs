//! The decoded sequence: header, tracks and their events.

use vstd::prelude::*;

verus! {

/// A channel-voice message.
#[derive(Debug, Clone, Copy, PartialEq, Eq)]
pub enum MidiMessage {
    NoteOff { key: u8, vel: u8 },
    NoteOn { key: u8, vel: u8 },
    Aftertouch { key: u8, vel: u8 },
    Controller { controller: u8, value: u8 },
    ProgramChange { program: u8 },
    ChannelAftertouch { vel: u8 },
    PitchBend { bend: u16 },
}

/// A meta message. Only the track name and the tempo are read; every other
/// annotation is `Other`.
#[derive(Debug, Clone, PartialEq, Eq)]
pub enum MetaMessage {
    /// The raw bytes of the track's name.
    TrackName(Vec<u8>),
    /// Microseconds per beat.
    Tempo(u32),
    Other,
}

#[derive(Debug, Clone, PartialEq, Eq)]
pub enum TrackEventKind {
    Midi { channel: u8, message: MidiMessage },
    SysEx,
    Escape,
    Meta(MetaMessage),
}

/// One event of a track. `delta` counts ticks: since the previous event of
/// the track as decoded, since the start of the track once the track has
/// been made absolute.
#[derive(Debug, Clone, PartialEq, Eq)]
pub struct TrackEvent {
    pub delta: u32,
    pub kind: TrackEventKind,
}

pub type Track = Vec<TrackEvent>;

/// How the tracks of a sequence are laid out.
#[derive(Debug, Clone, Copy, PartialEq, Eq)]
pub enum Format {
    SingleTrack,
    Parallel,
    Sequential,
}

/// The timing of a sequence: ticks per beat, or frames per second with
/// ticks per frame.
#[derive(Debug, Clone, Copy, PartialEq, Eq)]
pub enum Timing {
    Metrical(u16),
    Timecode(u8, u8),
}

#[derive(Debug, Clone, Copy, PartialEq, Eq)]
pub struct Header {
    pub format: Format,
    pub timing: Timing,
}

/// A decoded sequence.
#[derive(Debug, Clone, PartialEq, Eq)]
pub struct Sequence {
    pub header: Header,
    pub tracks: Vec<Track>,
}

/// A sequence as a mathematical value.
pub struct SequenceView {
    pub header: Header,
    pub tracks: Seq<Seq<TrackEvent>>,
}

impl View for Sequence {
    type V = SequenceView;

    open spec fn view(&self) -> SequenceView {
        SequenceView { header: self.header, tracks: Seq::new(self.tracks@.len(), |t: int| self.tracks@[t]@) }
    }
}

/// No event of the track lies before the one in front of it.
pub open spec fn is_chronological(track: Seq<TrackEvent>) -> bool {
    forall|i: int, j: int| 0 <= i <= j < track.len() ==> track[i].delta <= track[j].delta
}

} // verus!
