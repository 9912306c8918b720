//! From bytes to a sequence: the decoder's values, read into the library's
//! own.

use vstd::prelude::*;

use crate::err::{Error, ErrorKind};
use crate::midi::event::{
    Format, Header, MetaMessage, MidiMessage, Sequence, SequenceView, Timing, Track, TrackEvent, TrackEventKind,
};
use crate::midi::reader::{is_reading_of, read_sequence, MidiData};

verus! {

/// `midly::Smf`: a sequence as the decoder hands it out. What it holds is
/// read through the functions below.
#[verifier::external_type_specification]
#[verifier::external_body]
pub struct ExDecodedSmf<'a>(midly::Smf<'a>);

/// The sequence that the decoder makes of bytes, or `None` where it makes
/// none of them.
pub uninterp spec fn smf_parse(raw: Seq<u8>) -> Option<SequenceView>;

/// What a decoded sequence holds: its header, and track by track its
/// events.
pub uninterp spec fn smf_model(smf: midly::Smf) -> SequenceView;

/// At place `at` the bytes hold the tag of a header chunk, `MThd`, and
/// twelve bytes on, where the timing of that header starts behind its
/// length, its format and its number of tracks, the byte 0x80: a timing
/// of 128 frames per second, of which the decoder can make nothing.
pub open spec fn has_unreadable_timing_at(raw: Seq<u8>, at: int) -> bool {
    &&& 0 <= at
    &&& at + 12 < raw.len()
    &&& raw[at] == 0x4D
    &&& raw[at + 1] == 0x54
    &&& raw[at + 2] == 0x68
    &&& raw[at + 3] == 0x64
    &&& raw[at + 12] == 0x80
}

/// The bytes hold a header with a timing that cannot be read. Every place
/// counts, not only those at which a chunk starts, so this holds of more
/// byte strings than it must: also of those in which the five bytes stand
/// by chance inside a chunk, which the decoder reads without harm.
pub open spec fn has_unreadable_timing(raw: Seq<u8>) -> bool {
    exists|at: int| has_unreadable_timing_at(raw, at)
}

/// The cause given for bytes with a timing that cannot be read.
pub open spec fn unreadable_timing_cause() -> Seq<char> {
    "MIDI header gives a timing that cannot be read."@
}

/// What sort of event an event is, and for a channel-voice message its
/// channel.
pub enum EventClass {
    Midi { channel: u8 },
    SysEx,
    Escape,
    Meta,
}

/// The sort of an event.
pub open spec fn class_of(kind: TrackEventKind) -> EventClass {
    match kind {
        TrackEventKind::Midi { channel, .. } => EventClass::Midi { channel },
        TrackEventKind::SysEx => EventClass::SysEx,
        TrackEventKind::Escape => EventClass::Escape,
        TrackEventKind::Meta(_) => EventClass::Meta,
    }
}

/// The message of an event that starts or stops a note.
pub open spec fn note_of(kind: TrackEventKind) -> Option<MidiMessage> {
    match kind {
        TrackEventKind::Midi { message: MidiMessage::NoteOff { key, vel }, .. } => Some(
            MidiMessage::NoteOff { key, vel },
        ),
        TrackEventKind::Midi { message: MidiMessage::NoteOn { key, vel }, .. } => Some(
            MidiMessage::NoteOn { key, vel },
        ),
        _ => None,
    }
}

/// The message of an event that is aftertouch, of a key or of the channel.
pub open spec fn touch_of(kind: TrackEventKind) -> Option<MidiMessage> {
    match kind {
        TrackEventKind::Midi { message: MidiMessage::Aftertouch { key, vel }, .. } => Some(
            MidiMessage::Aftertouch { key, vel },
        ),
        TrackEventKind::Midi { message: MidiMessage::ChannelAftertouch { vel }, .. } => Some(
            MidiMessage::ChannelAftertouch { vel },
        ),
        _ => None,
    }
}

/// The message of an event that sets a controller, the program or the pitch
/// bend.
pub open spec fn control_of(kind: TrackEventKind) -> Option<MidiMessage> {
    match kind {
        TrackEventKind::Midi { message: MidiMessage::Controller { controller, value }, .. } => Some(
            MidiMessage::Controller { controller, value },
        ),
        TrackEventKind::Midi { message: MidiMessage::ProgramChange { program }, .. } => Some(
            MidiMessage::ProgramChange { program },
        ),
        TrackEventKind::Midi { message: MidiMessage::PitchBend { bend }, .. } => Some(
            MidiMessage::PitchBend { bend },
        ),
        _ => None,
    }
}

/// The meta message of an event, if it is one.
pub open spec fn meta_of(kind: TrackEventKind) -> Option<MetaMessage> {
    match kind {
        TrackEventKind::Meta(message) => Some(message),
        _ => None,
    }
}

/// `midly::Smf::parse`: decodes a sequence from bytes, or says in words
/// why it cannot. The bytes must not hold a timing that cannot be read:
/// on such a header the decoder negates the least 8-bit number, which may
/// stop the program instead of giving an error.
#[verifier::external_body]
fn parse_smf<'a>(raw: &'a [u8]) -> (r: Result<midly::Smf<'a>, String>)
    requires
        !has_unreadable_timing(raw@),
    ensures
        match r {
            Ok(smf) => smf_parse(raw@) == Some(smf_model(smf)),
            Err(_) => smf_parse(raw@) is None,
        },
{
    match midly::Smf::parse(raw) {
        Ok(smf) => Ok(smf),
        Err(error) => Err(error.to_string()),
    }
}

/// The fields `format` and `timing` of `midly::Smf::header`, variant for
/// variant.
#[verifier::external_body]
fn smf_header(smf: &midly::Smf) -> (header: Header)
    ensures
        header == smf_model(*smf).header,
{
    Header {
        format: match smf.header.format {
            midly::Format::SingleTrack => Format::SingleTrack,
            midly::Format::Parallel => Format::Parallel,
            midly::Format::Sequential => Format::Sequential,
        },
        timing: match smf.header.timing {
            midly::Timing::Metrical(ticks) => Timing::Metrical(ticks.as_int()),
            midly::Timing::Timecode(fps, subframe) => Timing::Timecode(fps.as_int(), subframe),
        },
    }
}

/// The length of `midly::Smf::tracks`.
#[verifier::external_body]
fn smf_track_count(smf: &midly::Smf) -> (count: usize)
    ensures
        count == smf_model(*smf).tracks.len(),
{
    smf.tracks.len()
}

/// The length of a track of `midly::Smf::tracks`.
#[verifier::external_body]
fn smf_track_len(smf: &midly::Smf, t: usize) -> (len: usize)
    requires
        t < smf_model(*smf).tracks.len(),
    ensures
        len == smf_model(*smf).tracks[t as int].len(),
{
    smf.tracks[t].len()
}

/// The field `delta` of a `midly::TrackEvent` and the variant of its field
/// `kind`, with the channel of `TrackEventKind::Midi`.
#[verifier::external_body]
fn smf_event_head(smf: &midly::Smf, t: usize, i: usize) -> (head: (u32, EventClass))
    requires
        t < smf_model(*smf).tracks.len(),
        i < smf_model(*smf).tracks[t as int].len(),
    ensures
        head.0 == smf_model(*smf).tracks[t as int][i as int].delta,
        head.1 == class_of(smf_model(*smf).tracks[t as int][i as int].kind),
{
    let event = &smf.tracks[t][i];
    let class = match event.kind {
        midly::TrackEventKind::Midi { channel, .. } => EventClass::Midi { channel: channel.as_int() },
        midly::TrackEventKind::SysEx(_) => EventClass::SysEx,
        midly::TrackEventKind::Escape(_) => EventClass::Escape,
        midly::TrackEventKind::Meta(_) => EventClass::Meta,
    };
    (event.delta.as_int(), class)
}

/// `midly::MidiMessage::NoteOff` and `NoteOn` with their fields; `None` for
/// any other event.
#[verifier::external_body]
fn smf_note(smf: &midly::Smf, t: usize, i: usize) -> (message: Option<MidiMessage>)
    requires
        t < smf_model(*smf).tracks.len(),
        i < smf_model(*smf).tracks[t as int].len(),
    ensures
        message == note_of(smf_model(*smf).tracks[t as int][i as int].kind),
{
    match smf.tracks[t][i].kind {
        midly::TrackEventKind::Midi { message: midly::MidiMessage::NoteOff { key, vel }, .. } => {
            Some(MidiMessage::NoteOff { key: key.as_int(), vel: vel.as_int() })
        },
        midly::TrackEventKind::Midi { message: midly::MidiMessage::NoteOn { key, vel }, .. } => {
            Some(MidiMessage::NoteOn { key: key.as_int(), vel: vel.as_int() })
        },
        _ => None,
    }
}

/// `midly::MidiMessage::Aftertouch` and `ChannelAftertouch` with their
/// fields; `None` for any other event.
#[verifier::external_body]
fn smf_touch(smf: &midly::Smf, t: usize, i: usize) -> (message: Option<MidiMessage>)
    requires
        t < smf_model(*smf).tracks.len(),
        i < smf_model(*smf).tracks[t as int].len(),
    ensures
        message == touch_of(smf_model(*smf).tracks[t as int][i as int].kind),
{
    match smf.tracks[t][i].kind {
        midly::TrackEventKind::Midi { message: midly::MidiMessage::Aftertouch { key, vel }, .. } => {
            Some(MidiMessage::Aftertouch { key: key.as_int(), vel: vel.as_int() })
        },
        midly::TrackEventKind::Midi { message: midly::MidiMessage::ChannelAftertouch { vel }, .. } => {
            Some(MidiMessage::ChannelAftertouch { vel: vel.as_int() })
        },
        _ => None,
    }
}

/// `midly::MidiMessage::Controller`, `ProgramChange` and `PitchBend` with
/// their fields, the bend as the 14-bit number it is sent as; `None` for
/// any other event.
#[verifier::external_body]
fn smf_control(smf: &midly::Smf, t: usize, i: usize) -> (message: Option<MidiMessage>)
    requires
        t < smf_model(*smf).tracks.len(),
        i < smf_model(*smf).tracks[t as int].len(),
    ensures
        message == control_of(smf_model(*smf).tracks[t as int][i as int].kind),
{
    match smf.tracks[t][i].kind {
        midly::TrackEventKind::Midi { message: midly::MidiMessage::Controller { controller, value }, .. } => {
            Some(MidiMessage::Controller { controller: controller.as_int(), value: value.as_int() })
        },
        midly::TrackEventKind::Midi { message: midly::MidiMessage::ProgramChange { program }, .. } => {
            Some(MidiMessage::ProgramChange { program: program.as_int() })
        },
        midly::TrackEventKind::Midi { message: midly::MidiMessage::PitchBend { bend }, .. } => {
            Some(MidiMessage::PitchBend { bend: bend.0.as_int() })
        },
        _ => None,
    }
}

/// `midly::MetaMessage::TrackName` with its bytes and `Tempo` with its
/// microseconds per beat; `Other` for any other meta message; `None` for
/// any other event.
#[verifier::external_body]
fn smf_meta(smf: &midly::Smf, t: usize, i: usize) -> (message: Option<MetaMessage>)
    requires
        t < smf_model(*smf).tracks.len(),
        i < smf_model(*smf).tracks[t as int].len(),
    ensures
        message == meta_of(smf_model(*smf).tracks[t as int][i as int].kind),
{
    match smf.tracks[t][i].kind {
        midly::TrackEventKind::Meta(midly::MetaMessage::TrackName(name)) => {
            Some(MetaMessage::TrackName(name.to_vec()))
        },
        midly::TrackEventKind::Meta(midly::MetaMessage::Tempo(tempo)) => Some(MetaMessage::Tempo(tempo.as_int())),
        midly::TrackEventKind::Meta(_) => Some(MetaMessage::Other),
        _ => None,
    }
}

/// Reads event `i` of track `t` of a decoded sequence. A channel-voice
/// message is a note, a control or aftertouch, so one of the three is
/// there to be read.
fn read_event(smf: &midly::Smf, t: usize, i: usize) -> (event: TrackEvent)
    requires
        t < smf_model(*smf).tracks.len(),
        i < smf_model(*smf).tracks[t as int].len(),
    ensures
        event == smf_model(*smf).tracks[t as int][i as int],
{
    let (delta, class) = smf_event_head(smf, t, i);
    let kind = match class {
        EventClass::Midi { channel } => {
            let message = match smf_note(smf, t, i) {
                Some(note) => note,
                None => match smf_control(smf, t, i) {
                    Some(control) => control,
                    None => match smf_touch(smf, t, i) {
                        Some(touch) => touch,
                        None => vstd::pervasive::unreached(),
                    },
                },
            };
            TrackEventKind::Midi { channel, message }
        },
        EventClass::SysEx => TrackEventKind::SysEx,
        EventClass::Escape => TrackEventKind::Escape,
        EventClass::Meta => match smf_meta(smf, t, i) {
            Some(message) => TrackEventKind::Meta(message),
            None => vstd::pervasive::unreached(),
        },
    };
    TrackEvent { delta, kind }
}

impl Sequence {
    /// Reads a decoded sequence into one of the library's own.
    pub fn from_midly(smf: &midly::Smf) -> (r: Sequence)
        ensures
            r@ == smf_model(*smf),
    {
        let count = smf_track_count(smf);
        let mut tracks: Vec<Track> = Vec::new();
        let mut t: usize = 0;
        while t < count
            invariant
                t <= count,
                count == smf_model(*smf).tracks.len(),
                tracks@.len() == t,
                forall|u: int| 0 <= u < t ==> (#[trigger] tracks@[u])@ == smf_model(*smf).tracks[u],
            decreases count - t,
        {
            let len = smf_track_len(smf, t);
            let mut track: Track = Vec::new();
            let mut i: usize = 0;
            while i < len
                invariant
                    i <= len,
                    t < smf_model(*smf).tracks.len(),
                    len == smf_model(*smf).tracks[t as int].len(),
                    track@.len() == i,
                    forall|j: int| 0 <= j < i ==> #[trigger] track@[j] == smf_model(*smf).tracks[t as int][j],
                decreases len - i,
            {
                track.push(read_event(smf, t, i));
                i = i + 1;
            }
            assert(track@ =~= smf_model(*smf).tracks[t as int]);
            tracks.push(track);
            t = t + 1;
        }
        let r = Sequence { header: smf_header(smf), tracks };
        assert(r@.tracks =~= smf_model(*smf).tracks);
        r
    }
}

/// Whether the bytes hold a header with a timing that cannot be read.
pub fn finds_unreadable_timing(data: &[u8]) -> (found: bool)
    ensures
        found == has_unreadable_timing(data@),
{
    let len = data.len();
    if len <= 12 {
        return false;
    }
    let mut at: usize = 0;
    while at < len - 12
        invariant
            len == data@.len(),
            len > 12,
            at <= len - 12,
            forall|before: int| 0 <= before < at ==> !has_unreadable_timing_at(data@, before),
        decreases len - at,
    {
        if data[at] == 0x4D && data[at + 1] == 0x54 && data[at + 2] == 0x68 && data[at + 3] == 0x64 && data[at + 12]
            == 0x80 {
            assert(has_unreadable_timing_at(data@, at as int));
            return true;
        }
        at = at + 1;
    }
    false
}

/// `r` is what decoding bytes gives: an error of kind `Midly` with its
/// cause where they hold a timing that cannot be read; else the sequence
/// that the decoder makes of them; else an error of kind `Midly`, whose
/// cause is the decoder's own word for it.
pub open spec fn is_decoding_of(raw: Seq<u8>, r: Result<Sequence, Error>) -> bool {
    if has_unreadable_timing(raw) {
        r is Err && r->Err_0.kind == ErrorKind::Midly && r->Err_0.message@ == unreadable_timing_cause()
    } else {
        match smf_parse(raw) {
            Some(smf) => r is Ok && r->Ok_0@ == smf,
            None => r is Err && r->Err_0.kind == ErrorKind::Midly,
        }
    }
}

/// Decodes the sequence that the bytes of a MIDI file hold. Bytes that
/// hold no sequence give an error of kind `Midly`, and so do bytes with a
/// timing that cannot be read, which are not handed to the decoder.
pub fn decode_midi_file(data: &[u8]) -> (r: Result<Sequence, Error>)
    ensures
        is_decoding_of(data@, r),
{
    if finds_unreadable_timing(data) {
        return Err(Error::new(ErrorKind::Midly, "MIDI header gives a timing that cannot be read.".to_owned()));
    }
    match parse_smf(data) {
        Ok(decoded) => Ok(Sequence::from_midly(&decoded)),
        Err(cause) => Err(Error::new(ErrorKind::Midly, cause)),
    }
}

/// `r` is what reading the bytes of a MIDI file gives: the error of the
/// decoding where there is one, else what reading the decoded sequence
/// gives.
pub open spec fn is_reading_of_file(raw: Seq<u8>, r: Result<MidiData, Error>) -> bool {
    if has_unreadable_timing(raw) {
        r is Err && r->Err_0.kind == ErrorKind::Midly && r->Err_0.message@ == unreadable_timing_cause()
    } else {
        match smf_parse(raw) {
            Some(smf) => is_reading_of(smf, r),
            None => r is Err && r->Err_0.kind == ErrorKind::Midly,
        }
    }
}

/// Reads the instruments of the sequence that the bytes of a MIDI file
/// hold, in real time, with the resolution of the sequence. Bytes that
/// `decode_midi_file` refuses give its error; for the rest see
/// `read_sequence`.
pub fn read_midi_file(data: &[u8]) -> (r: Result<MidiData, Error>)
    ensures
        is_reading_of_file(data@, r),
{
    match decode_midi_file(data) {
        Ok(sequence) => read_sequence(sequence),
        Err(error) => Err(error),
    }
}

} // verus!
