use pretty_midi_rs::err::ErrorKind;
use pretty_midi_rs::midi::{
    InstrumentID, MetaMessage, MidiMessage, Note, PitchBend, TickTime, TrackEvent, TrackEventKind,
    TrackState,
};

fn midi(tick: u32, channel: u8, message: MidiMessage) -> TrackEvent {
    TrackEvent { delta: tick, kind: TrackEventKind::Midi { channel, message } }
}

fn name(tick: u32, bytes: &[u8]) -> TrackEvent {
    TrackEvent { delta: tick, kind: TrackEventKind::Meta(MetaMessage::TrackName(bytes.to_vec())) }
}

fn closed_by(off: MidiMessage) -> Vec<Note<TickTime>> {
    let mut track = TrackState::new();
    track.apply_event(&midi(0, 3, MidiMessage::NoteOn { key: 60, vel: 100 })).unwrap();
    track.apply_event(&midi(5, 3, MidiMessage::NoteOn { key: 60, vel: 90 })).unwrap();
    track.apply_event(&midi(9, 3, MidiMessage::NoteOn { key: 61, vel: 80 })).unwrap();
    track.apply_event(&midi(9, 3, off)).unwrap();
    assert_eq!(track.channels[3].pending_count(61), 1);
    let mut instruments = track.take_instruments();
    assert_eq!(instruments.len(), 1);
    instruments.remove(0).notes
}

#[test]
fn note_on_without_velocity_closes_what_a_note_off_closes() {
    let by_note_off = closed_by(MidiMessage::NoteOff { key: 60, vel: 64 });
    let by_silent_note_on = closed_by(MidiMessage::NoteOn { key: 60, vel: 0 });
    assert_eq!(by_note_off, by_silent_note_on);
    assert_eq!(
        by_note_off,
        vec![
            Note { pitch: 60, velocity: 100, start_time: 0, end_time: 9 },
            Note { pitch: 60, velocity: 90, start_time: 5, end_time: 9 },
        ]
    );
}

#[test]
fn events_go_to_the_channel_they_name() {
    let mut track = TrackState::new();
    track.apply_event(&midi(0, 0, MidiMessage::ProgramChange { program: 10 })).unwrap();
    track.apply_event(&midi(0, 15, MidiMessage::ProgramChange { program: 20 })).unwrap();
    track.apply_event(&midi(1, 15, MidiMessage::NoteOn { key: 127, vel: 1 })).unwrap();
    track.apply_event(&midi(2, 0, MidiMessage::NoteOn { key: 0, vel: 2 })).unwrap();
    track.apply_event(&midi(3, 15, MidiMessage::NoteOff { key: 127, vel: 0 })).unwrap();
    track.apply_event(&midi(4, 0, MidiMessage::NoteOff { key: 0, vel: 0 })).unwrap();
    track.apply_event(&midi(5, 0, MidiMessage::PitchBend { bend: 16383 })).unwrap();
    track.apply_event(&midi(6, 0, MidiMessage::Controller { controller: 64, value: 127 })).unwrap();
    assert_eq!(track.instrument_ids(), vec![InstrumentID::new(0, 10), InstrumentID::new(15, 20)]);
    let instruments = track.take_instruments();
    assert_eq!(instruments.len(), 2);
    assert_eq!(instruments[0].program, 10);
    assert_eq!(instruments[0].notes, vec![Note { pitch: 0, velocity: 2, start_time: 2, end_time: 4 }]);
    assert_eq!(instruments[0].pitch_bends, vec![PitchBend { bend: 16383, time: 5 }]);
    assert_eq!(instruments[0].control_changes.len(), 1);
    assert_eq!(instruments[1].program, 20);
    assert_eq!(instruments[1].notes, vec![Note { pitch: 127, velocity: 1, start_time: 1, end_time: 3 }]);
    assert!(track.take_instruments().is_empty());
    assert!(track.instrument_ids().is_empty());
}

#[test]
fn same_program_on_two_channels_gives_two_instruments() {
    let mut track = TrackState::new();
    for channel in [4u8, 2] {
        track.apply_event(&midi(0, channel, MidiMessage::ProgramChange { program: 33 })).unwrap();
        track.apply_event(&midi(1, channel, MidiMessage::NoteOn { key: channel, vel: 5 })).unwrap();
        track.apply_event(&midi(2, channel, MidiMessage::NoteOff { key: channel, vel: 5 })).unwrap();
    }
    assert_eq!(track.instrument_ids(), vec![InstrumentID::new(2, 33), InstrumentID::new(4, 33)]);
    let instruments = track.take_instruments();
    assert_eq!(instruments.len(), 2);
    assert_eq!(instruments[0].notes[0].pitch, 2);
    assert_eq!(instruments[1].notes[0].pitch, 4);
}

#[test]
fn aftertouch_is_passed_over() {
    let mut track = TrackState::new();
    track.apply_event(&midi(0, 1, MidiMessage::Aftertouch { key: 200, vel: 9 })).unwrap();
    track.apply_event(&midi(0, 1, MidiMessage::ChannelAftertouch { vel: 9 })).unwrap();
    track.apply_event(&TrackEvent { delta: 0, kind: TrackEventKind::SysEx }).unwrap();
    track.apply_event(&TrackEvent { delta: 0, kind: TrackEventKind::Escape }).unwrap();
    track.apply_event(&TrackEvent { delta: 0, kind: TrackEventKind::Meta(MetaMessage::Tempo(1)) }).unwrap();
    track.apply_event(&TrackEvent { delta: 0, kind: TrackEventKind::Meta(MetaMessage::Other) }).unwrap();
    assert!(track.take_instruments().is_empty());
    assert!(!track.channels[1].has_straggler());
    assert!(track.name.is_none());
}

#[test]
fn first_track_name_is_kept() {
    let mut track = TrackState::new();
    track.apply_event(&name(0, b"Piano")).unwrap();
    track.apply_event(&name(1, b"Organ")).unwrap();
    assert_eq!(track.name.as_deref(), Some("Piano"));
    track.set_name(String::from("Harp"));
    assert_eq!(track.name.as_deref(), Some("Piano"));
}

#[test]
fn track_name_is_read_as_utf8_with_replacements() {
    let mut track = TrackState::new();
    track.apply_meta_msg(&MetaMessage::TrackName(vec![0x46, 0x6C, 0xC3, 0xBC, 0x67, 0x65, 0x6C, 0xFF]));
    assert_eq!(track.name.as_deref(), Some("Flügel\u{FFFD}"));
    let mut empty = TrackState::new();
    empty.apply_meta_msg(&MetaMessage::TrackName(vec![]));
    assert_eq!(empty.name.as_deref(), Some(""));
}

#[test]
fn channel_out_of_range_is_refused() {
    let mut track = TrackState::new();
    let error = track.apply_event(&midi(0, 16, MidiMessage::ProgramChange { program: 1 })).unwrap_err();
    assert_eq!(error.kind, ErrorKind::Generic);
    assert_eq!(error.message, "MIDI channel out of range.");
    let error = track.apply_midi_msg(255, &MidiMessage::NoteOn { key: 200, vel: 1 }, 0).unwrap_err();
    assert_eq!(error.message, "MIDI channel out of range.");
    assert!(track.take_instruments().is_empty());
}

#[test]
fn key_out_of_range_is_refused() {
    let mut track = TrackState::new();
    for message in [
        MidiMessage::NoteOn { key: 128, vel: 1 },
        MidiMessage::NoteOn { key: 128, vel: 0 },
        MidiMessage::NoteOff { key: 255, vel: 0 },
    ] {
        let error = track.apply_event(&midi(0, 15, message)).unwrap_err();
        assert_eq!(error.kind, ErrorKind::Generic);
        assert_eq!(error.message, "MIDI key out of range.");
    }
    track.apply_event(&midi(0, 15, MidiMessage::NoteOn { key: 127, vel: 1 })).unwrap();
    assert_eq!(track.channels[15].pending_count(127), 1);
}

#[test]
fn init_channels_makes_a_default_track_ready() {
    let mut track = TrackState::default();
    track.init_channels();
    track.apply_event(&midi(0, 7, MidiMessage::NoteOn { key: 64, vel: 1 })).unwrap();
    assert_eq!(track.channels[7].pending_count(64), 1);
    assert_eq!(track.channels.len(), 16);
}

#[test]
fn instrument_id_holds_channel_and_program() {
    let id = InstrumentID::new(3, 99);
    assert_eq!(id.channel, 3);
    assert_eq!(id.program, 99);
    assert_eq!(id, InstrumentID { channel: 3, program: 99 });
    assert_ne!(id, InstrumentID::new(99, 3));
}
