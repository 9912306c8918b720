//! The state of one track: its name and its sixteen channels.

use vstd::prelude::*;

use crate::err::{Error, ErrorKind};
use crate::midi::channel::{initial_channel, instruments_in_order, ChannelState, ChannelView};
use crate::midi::event::{MetaMessage, MidiMessage, TrackEvent, TrackEventKind};
use crate::midi::pending::PITCHES;
use crate::midi::time::{
    instrument_views, ChannelNo, Instrument, InstrumentView, MidiTime, ProgramNo, TickTime,
};

verus! {

/// The number of channels of a track.
pub const CHANNELS: usize = 16;

/// What tells the instruments of a track apart: the channel and the
/// program.
#[derive(Copy, Clone, Eq, PartialEq, Hash, Debug)]
pub struct InstrumentID {
    pub channel: ChannelNo,
    pub program: ProgramNo,
}

impl InstrumentID {
    pub fn new(channel: u8, program: u8) -> (id: InstrumentID)
        ensures
            id.channel == channel,
            id.program == program,
    {
        InstrumentID { channel, program }
    }
}

/// The text that a lossy reading as UTF-8 makes of bytes.
pub uninterp spec fn utf8_lossy(bytes: Seq<u8>) -> Seq<char>;

/// `String::from_utf8_lossy`: the bytes read as UTF-8, as an owned string.
#[verifier::external_body]
fn decode_lossy(bytes: &[u8]) -> (text: String)
    ensures
        text@ == utf8_lossy(bytes@),
{
    String::from_utf8_lossy(bytes).into_owned()
}

/// The state of a track while its events are replayed.
pub struct TrackState {
    pub name: Option<String>,
    pub channels: [ChannelState; 16],
}

/// A track's state as a mathematical value.
pub struct TrackView {
    pub name: Option<Seq<char>>,
    pub channels: Seq<ChannelView>,
}

/// The cause given where a message names a channel that no track has.
pub open spec fn channel_cause() -> Seq<char> {
    "MIDI channel out of range."@
}

/// The cause given where a note names a pitch that no channel has.
pub open spec fn key_cause() -> Seq<char> {
    "MIDI key out of range."@
}

/// Whether a message can be applied: its channel is one of the sixteen,
/// and if it is a note-on or a note-off its pitch is one of the 128.
pub open spec fn midi_accepted(channel: ChannelNo, message: MidiMessage) -> bool {
    &&& channel < CHANNELS
    &&& match message {
        MidiMessage::NoteOn { key, .. } => key < PITCHES,
        MidiMessage::NoteOff { key, .. } => key < PITCHES,
        _ => true,
    }
}

/// The cause with which a message that cannot be applied is refused.
pub open spec fn midi_refusal(channel: ChannelNo, message: MidiMessage) -> Seq<char> {
    if channel >= CHANNELS {
        channel_cause()
    } else {
        key_cause()
    }
}

/// What a message does to its channel. A note-on without velocity is a
/// note-off. Aftertouch is ignored.
pub open spec fn channel_applied(channel: ChannelView, message: MidiMessage, time: MidiTime) -> ChannelView {
    match message {
        MidiMessage::ProgramChange { program } => channel.program_change(program),
        MidiMessage::NoteOn { key, vel } => if vel > 0 {
            channel.note_on(time, key, vel)
        } else {
            channel.note_off(time, key)
        },
        MidiMessage::NoteOff { key, .. } => channel.note_off(time, key),
        MidiMessage::PitchBend { bend } => channel.pitch_bend(bend, time),
        MidiMessage::Controller { controller, value } => channel.control_change(controller, value, time),
        MidiMessage::Aftertouch { .. } => channel,
        MidiMessage::ChannelAftertouch { .. } => channel,
    }
}

/// Whether an event can be applied.
pub open spec fn event_accepted(event: TrackEvent) -> bool {
    match event.kind {
        TrackEventKind::Midi { channel, message } => midi_accepted(channel, message),
        _ => true,
    }
}

/// The cause with which an event that cannot be applied is refused.
pub open spec fn event_refusal(event: TrackEvent) -> Seq<char> {
    match event.kind {
        TrackEventKind::Midi { channel, message } => midi_refusal(channel, message),
        _ => Seq::empty(),
    }
}

/// Whether every event of a track can be applied.
pub open spec fn all_accepted(events: Seq<TrackEvent>) -> bool {
    forall|i: int| 0 <= i < events.len() ==> event_accepted(#[trigger] events[i])
}

/// What tells apart the instruments of a channel whose programs lie below
/// `upto`, in the order of the programs.
pub open spec fn channel_ids(
    channel: ChannelNo,
    instruments: Map<ProgramNo, InstrumentView<TickTime>>,
    upto: int,
) -> Seq<InstrumentID>
    decreases upto,
{
    if upto <= 0 {
        Seq::empty()
    } else {
        let front = channel_ids(channel, instruments, upto - 1);
        let program = (upto - 1) as ProgramNo;
        if instruments.contains_key(program) {
            front.push(InstrumentID { channel, program })
        } else {
            front
        }
    }
}

/// A track's state before its first event.
pub open spec fn initial_track() -> TrackView {
    TrackView { name: None, channels: Seq::new(CHANNELS as nat, |channel: int| initial_channel()) }
}

impl TrackView {
    /// Every channel is there and has its pending lists.
    pub open spec fn wf(self) -> bool {
        &&& self.channels.len() == CHANNELS
        &&& forall|channel: int| 0 <= channel < CHANNELS ==> (#[trigger] self.channels[channel]).is_ready()
    }

    pub open spec fn midi_applied(self, channel: ChannelNo, message: MidiMessage, time: MidiTime) -> TrackView {
        TrackView {
            channels: self.channels.update(
                channel as int,
                channel_applied(self.channels[channel as int], message, time),
            ),
            ..self
        }
    }

    /// The track takes the name that `text` spells unless it has a name.
    pub open spec fn named(self, text: Seq<char>) -> TrackView {
        match self.name {
            Some(_) => self,
            None => TrackView { name: Some(text), ..self },
        }
    }

    /// Of the meta messages only the track name is read, and of the track
    /// names only the first.
    pub open spec fn meta_applied(self, message: MetaMessage) -> TrackView {
        match message {
            MetaMessage::TrackName(bytes) => self.named(utf8_lossy(bytes@)),
            _ => self,
        }
    }

    pub open spec fn event_applied(self, event: TrackEvent) -> TrackView {
        match event.kind {
            TrackEventKind::Midi { channel, message } => self.midi_applied(channel, message, event.delta),
            TrackEventKind::Meta(message) => self.meta_applied(message),
            _ => self,
        }
    }

    /// The state after the events have been applied in their order.
    pub open spec fn replayed(self, events: Seq<TrackEvent>) -> TrackView
        decreases events.len(),
    {
        if events.len() == 0 {
            self
        } else {
            self.replayed(events.drop_last()).event_applied(events.last())
        }
    }

    /// The track with an empty pending list for each pitch of each channel
    /// that had none.
    pub open spec fn initialized(self) -> TrackView {
        TrackView {
            channels: Seq::new(CHANNELS as nat, |channel: int| self.channels[channel].initialized()),
            ..self
        }
    }

    /// The instruments of the channels below `upto`: channel by channel,
    /// and within a channel in the order of the programs.
    pub open spec fn instruments(self, upto: int) -> Seq<InstrumentView<TickTime>>
        decreases upto,
    {
        if upto <= 0 {
            Seq::empty()
        } else {
            self.instruments(upto - 1) + instruments_in_order(self.channels[upto - 1].instruments, 256)
        }
    }

    /// What tells apart the instruments of the channels below `upto`, in
    /// the order of `instruments`.
    pub open spec fn ids(self, upto: int) -> Seq<InstrumentID>
        decreases upto,
    {
        if upto <= 0 {
            Seq::empty()
        } else {
            self.ids(upto - 1) + channel_ids((upto - 1) as ChannelNo, self.channels[upto - 1].instruments, 256)
        }
    }

    /// The track without the instruments of the channels below `upto`.
    pub open spec fn drained(self, upto: int) -> TrackView {
        TrackView {
            channels: Seq::new(
                self.channels.len(),
                |channel: int|
                    if channel < upto {
                        ChannelView { instruments: Map::empty(), ..self.channels[channel] }
                    } else {
                        self.channels[channel]
                    },
            ),
            ..self
        }
    }
}

/// A note-on without velocity does what a note-off does, whatever the
/// velocity of the note-off, and is refused where the note-off is.
pub proof fn lemma_silent_note_on_is_note_off(
    track: TrackView,
    channel: ChannelNo,
    key: u8,
    vel: u8,
    time: MidiTime,
)
    ensures
        track.midi_applied(channel, MidiMessage::NoteOn { key, vel: 0 }, time) == track.midi_applied(
            channel,
            MidiMessage::NoteOff { key, vel },
            time,
        ),
        midi_accepted(channel, MidiMessage::NoteOn { key, vel: 0 }) == midi_accepted(
            channel,
            MidiMessage::NoteOff { key, vel },
        ),
{
}

/// A message that is applied leaves every channel with its pending lists
/// and its instruments under their own programs.
pub proof fn lemma_midi_applied_wf(track: TrackView, channel: ChannelNo, message: MidiMessage, time: MidiTime)
    requires
        track.wf(),
        midi_accepted(channel, message),
    ensures
        track.midi_applied(channel, message, time).wf(),
{
    let before = track.channels[channel as int];
    let after = channel_applied(before, message, time);
    assert(before.is_ready());
    assert(after.is_ready()) by {
        let ready = before.materialized(before.current_program);
        let current = before.with_current();
        assert(ready.wf());
        assert(current.wf());
    }
    let applied = track.midi_applied(channel, message, time);
    assert forall|other: int| 0 <= other < CHANNELS implies (#[trigger] applied.channels[other]).is_ready() by {
        if other != channel {
            assert(track.channels[other].is_ready());
        }
    }
}

/// Replaying events that can be applied leaves the track well-formed.
pub proof fn lemma_replayed_wf(track: TrackView, events: Seq<TrackEvent>)
    requires
        track.wf(),
        all_accepted(events),
    ensures
        track.replayed(events).wf(),
    decreases events.len(),
{
    if events.len() > 0 {
        let front = events.drop_last();
        assert(all_accepted(front)) by {
            assert forall|i: int| 0 <= i < front.len() implies event_accepted(#[trigger] front[i]) by {
                assert(front[i] == events[i]);
            }
        }
        lemma_replayed_wf(track, front);
        let event = events.last();
        assert(event_accepted(event));
        match event.kind {
            TrackEventKind::Midi { channel, message } => {
                lemma_midi_applied_wf(track.replayed(front), channel, message, event.delta);
            },
            _ => {},
        }
    }
}

/// The identifiers of a channel name its instruments one for one: as many
/// as there are instruments, each with the channel and with the program of
/// the instrument at its place.
pub proof fn lemma_channel_ids_match(
    channel: ChannelNo,
    instruments: Map<ProgramNo, InstrumentView<TickTime>>,
    upto: int,
)
    requires
        forall|program: ProgramNo| #[trigger]
            instruments.contains_key(program) ==> instruments[program].program == program,
    ensures
        channel_ids(channel, instruments, upto).len() == instruments_in_order(instruments, upto).len(),
        forall|i: int| 0 <= i < channel_ids(channel, instruments, upto).len() ==> {
            &&& (#[trigger] channel_ids(channel, instruments, upto)[i]).channel == channel
            &&& channel_ids(channel, instruments, upto)[i].program == instruments_in_order(instruments, upto)[i].program
        },
    decreases upto,
{
    if upto > 0 {
        lemma_channel_ids_match(channel, instruments, upto - 1);
    }
}

/// The identifiers of a track name its instruments one for one.
pub proof fn lemma_ids_match(track: TrackView, upto: int)
    requires
        track.wf(),
        upto <= CHANNELS,
    ensures
        track.ids(upto).len() == track.instruments(upto).len(),
        forall|i: int| 0 <= i < track.ids(upto).len() ==> {
            &&& (#[trigger] track.ids(upto)[i]).channel < upto
            &&& track.ids(upto)[i].program == track.instruments(upto)[i].program
        },
    decreases upto,
{
    if upto > 0 {
        lemma_ids_match(track, upto - 1);
        assert(track.channels[upto - 1].is_ready());
        lemma_channel_ids_match((upto - 1) as ChannelNo, track.channels[upto - 1].instruments, 256);
    }
}

impl View for TrackState {
    type V = TrackView;

    open spec fn view(&self) -> TrackView {
        TrackView {
            name: match self.name {
                Some(name) => Some(name@),
                None => None,
            },
            channels: Seq::new(CHANNELS as nat, |channel: int| self.channels[channel]@),
        }
    }
}

impl Default for TrackState {
    /// A track without a name whose channels have no pending lists:
    /// `init_channels` gives them theirs.
    fn default() -> (r: TrackState)
        ensures
            r@.name is None,
            forall|channel: int| 0 <= channel < CHANNELS ==> (#[trigger] r@.channels[channel]) == (ChannelView {
                pending: Seq::empty(),
                ..initial_channel()
            }),
    {
        let r = TrackState {
            name: None,
            channels: [
                ChannelState::default(),
                ChannelState::default(),
                ChannelState::default(),
                ChannelState::default(),
                ChannelState::default(),
                ChannelState::default(),
                ChannelState::default(),
                ChannelState::default(),
                ChannelState::default(),
                ChannelState::default(),
                ChannelState::default(),
                ChannelState::default(),
                ChannelState::default(),
                ChannelState::default(),
                ChannelState::default(),
                ChannelState::default(),
            ],
        };
        assert forall|channel: int| 0 <= channel < CHANNELS implies (#[trigger] r@.channels[channel]) == (ChannelView {
            pending: Seq::empty(),
            ..initial_channel()
        }) by {
            assert(r@.channels[channel].pending =~= Seq::empty());
        }
        r
    }
}

impl TrackState {
    /// Gives every channel an empty pending list for each pitch that has
    /// none yet.
    pub fn init_channels(&mut self)
        ensures
            final(self)@ == old(self)@.initialized(),
    {
        let mut channel: usize = 0;
        while channel < CHANNELS
            invariant
                channel <= CHANNELS,
                self.name == old(self).name,
                forall|done: int| 0 <= done < channel ==> (#[trigger] self.channels[done])@ == old(self).channels[done]@.initialized(),
                forall|open: int| channel <= open < CHANNELS ==> #[trigger] self.channels[open] == old(self).channels[open],
            decreases CHANNELS - channel,
        {
            self.channels[channel].init();
            channel = channel + 1;
        }
        assert(self@.channels =~= old(self)@.initialized().channels);
    }

    /// A track before its first event.
    pub fn new() -> (r: TrackState)
        ensures
            r@ == initial_track(),
    {
        let mut r = TrackState::default();
        let ghost blank = r@;
        r.init_channels();
        assert(r@.channels =~= initial_track().channels) by {
            assert forall|channel: int| 0 <= channel < CHANNELS implies r@.channels[channel] == initial_channel() by {
                assert(r@.channels[channel] == blank.channels[channel].initialized());
                assert(r@.channels[channel].pending =~= initial_channel().pending);
            }
        }
        r
    }

    /// Gives the track the name that `text` spells, unless it has one.
    pub fn set_name(&mut self, text: String)
        ensures
            final(self)@ == old(self)@.named(text@),
    {
        if self.name.is_none() {
            self.name = Some(text);
        }
    }

    /// Applies a meta message: the first track name is kept, read as UTF-8
    /// with what is not UTF-8 replaced; nothing else is read.
    pub fn apply_meta_msg(&mut self, msg: &MetaMessage)
        ensures
            final(self)@ == old(self)@.meta_applied(*msg),
    {
        match msg {
            MetaMessage::TrackName(bytes) => {
                let text = decode_lossy(bytes.as_slice());
                self.set_name(text);
            },
            MetaMessage::Tempo(_) => {},
            MetaMessage::Other => {},
        }
    }

    /// Applies a channel-voice message that came at tick `time` to its
    /// channel. A message whose channel or pitch is out of range is
    /// refused and changes nothing.
    pub fn apply_midi_msg(&mut self, channel: ChannelNo, msg: &MidiMessage, time: MidiTime) -> (r: Result<(), Error>)
        requires
            old(self)@.wf(),
        ensures
            final(self)@.wf(),
            match r {
                Ok(_) => midi_accepted(channel, *msg) && final(self)@ == old(self)@.midi_applied(channel, *msg, time),
                Err(e) => !midi_accepted(channel, *msg) && final(self)@ == old(self)@ && e.kind == ErrorKind::Generic
                    && e.message@ == midi_refusal(channel, *msg),
            },
    {
        if channel as usize >= CHANNELS {
            return Err(Error::generic("MIDI channel out of range."));
        }
        let at: usize = channel as usize;
        assert(self@.channels[at as int].is_ready());
        proof {
            if midi_accepted(channel, *msg) {
                lemma_midi_applied_wf(self@, channel, *msg, time);
            }
        }
        match msg {
            MidiMessage::ProgramChange { program } => {
                self.channels[at].program_change(*program);
            },
            MidiMessage::NoteOn { key, vel } => {
                if *key as usize >= PITCHES {
                    return Err(Error::generic("MIDI key out of range."));
                }
                if *vel > 0 {
                    self.channels[at].note_on(time, *key, *vel);
                } else {
                    self.channels[at].note_off(time, *key);
                }
            },
            MidiMessage::NoteOff { key, .. } => {
                if *key as usize >= PITCHES {
                    return Err(Error::generic("MIDI key out of range."));
                }
                self.channels[at].note_off(time, *key);
            },
            MidiMessage::PitchBend { bend } => {
                self.channels[at].pitch_bend(*bend, time);
            },
            MidiMessage::Controller { controller, value } => {
                self.channels[at].control_change(*controller, *value, time);
            },
            MidiMessage::Aftertouch { .. } => {},
            MidiMessage::ChannelAftertouch { .. } => {},
        }
        assert(self@.channels =~= old(self)@.midi_applied(channel, *msg, time).channels);
        Ok(())
    }

    /// Applies an event of the track, whose `delta` is its absolute tick.
    /// Channel-voice messages go to their channel, meta messages to the
    /// track; everything else is passed over.
    pub fn apply_event(&mut self, event: &TrackEvent) -> (r: Result<(), Error>)
        requires
            old(self)@.wf(),
        ensures
            final(self)@.wf(),
            match r {
                Ok(_) => event_accepted(*event) && final(self)@ == old(self)@.event_applied(*event),
                Err(e) => !event_accepted(*event) && final(self)@ == old(self)@ && e.kind == ErrorKind::Generic
                    && e.message@ == event_refusal(*event),
            },
    {
        let time: MidiTime = event.delta;
        match &event.kind {
            TrackEventKind::Midi { channel, message } => self.apply_midi_msg(*channel, message, time),
            TrackEventKind::Meta(msg) => {
                self.apply_meta_msg(msg);
                Ok(())
            },
            TrackEventKind::SysEx => Ok(()),
            TrackEventKind::Escape => Ok(()),
        }
    }

    /// Takes the instruments out of the track: channel by channel, and
    /// within a channel in the order of the programs.
    pub fn take_instruments(&mut self) -> (r: Vec<Instrument<TickTime>>)
        ensures
            instrument_views(r@) == old(self)@.instruments(CHANNELS as int),
            final(self)@ == old(self)@.drained(CHANNELS as int),
    {
        let mut taken: Vec<Instrument<TickTime>> = Vec::new();
        let mut channel: usize = 0;
        assert(instrument_views(taken@) =~= old(self)@.instruments(0));
        while channel < CHANNELS
            invariant
                channel <= CHANNELS,
                self.name == old(self).name,
                instrument_views(taken@) == old(self)@.instruments(channel as int),
                forall|done: int| 0 <= done < channel ==> (#[trigger] self.channels[done])@ == (ChannelView {
                    instruments: Map::empty(),
                    ..old(self).channels[done]@
                }),
                forall|open: int| channel <= open < CHANNELS ==> #[trigger] self.channels[open] == old(self).channels[open],
            decreases CHANNELS - channel,
        {
            let ghost before = instrument_views(taken@);
            let mut part = self.channels[channel].take_instruments();
            let ghost part_views = instrument_views(part@);
            taken.append(&mut part);
            assert(instrument_views(taken@) =~= before + part_views);
            channel = channel + 1;
        }
        assert(self@.channels =~= old(self)@.drained(CHANNELS as int).channels);
        taken
    }

    /// What tells the instruments of the track apart, in the order in
    /// which `take_instruments` hands them out.
    pub fn instrument_ids(&self) -> (r: Vec<InstrumentID>)
        ensures
            r@ == self@.ids(CHANNELS as int),
    {
        let mut ids: Vec<InstrumentID> = Vec::new();
        let mut channel: u8 = 0;
        while channel < 16
            invariant
                channel <= 16,
                ids@ == self@.ids(channel as int),
            decreases 16 - channel,
        {
            let ghost before = ids@;
            let ghost held = self@.channels[channel as int].instruments;
            let mut next: u16 = 0;
            while next < 256
                invariant
                    next <= 256,
                    channel < 16,
                    held == self@.channels[channel as int].instruments,
                    ids@ == before + channel_ids(channel, held, next as int),
                decreases 256 - next,
            {
                let program: ProgramNo = next as ProgramNo;
                assert((next + 1 - 1) as ProgramNo == program);
                if self.channels[channel as usize].has_instrument(program) {
                    ids.push(InstrumentID::new(channel, program));
                    assert(ids@ =~= before + channel_ids(channel, held, next + 1));
                }
                next = next + 1;
            }
            assert((channel + 1 - 1) as ChannelNo == channel);
            channel = channel + 1;
        }
        ids
    }
}

} // verus!
