use pretty_midi_rs::midi::{
    decode_midi_file, resolve_index, Format, InspectMutExt, Instrument, Note, TickTime, Timing,
};
use pretty_midi_rs::err::ErrorKind;

#[test]
fn index_counts_from_the_front_or_back_from_the_end() {
    assert_eq!(resolve_index(0, 3), Some(0));
    assert_eq!(resolve_index(2, 3), Some(2));
    assert_eq!(resolve_index(3, 3), None);
    assert_eq!(resolve_index(-1, 3), Some(2));
    assert_eq!(resolve_index(-3, 3), Some(0));
    assert_eq!(resolve_index(-4, 3), None);
    assert_eq!(resolve_index(0, 0), None);
    assert_eq!(resolve_index(-1, 0), None);
    assert_eq!(resolve_index(isize::MIN, 5), None);
    assert_eq!(resolve_index(isize::MAX, 5), None);
    assert_eq!(resolve_index(isize::MAX, usize::MAX), Some(isize::MAX as usize));
    assert_eq!(resolve_index(isize::MIN, usize::MAX), Some(usize::MAX - isize::MAX as usize - 1));
    assert_eq!(resolve_index(-1, usize::MAX), Some(usize::MAX - 1));
}

#[test]
fn note_is_found_by_its_index() {
    let mut instrument = Instrument::<TickTime>::new(0);
    assert!(instrument.note_at(0).is_none());
    assert!(instrument.note_at(-1).is_none());
    for pitch in 0..4u8 {
        instrument.notes.push(Note { pitch, velocity: 1, start_time: 0, end_time: 1 });
    }
    assert_eq!(instrument.note_at(0).unwrap().pitch, 0);
    assert_eq!(instrument.note_at(3).unwrap().pitch, 3);
    assert_eq!(instrument.note_at(-1).unwrap().pitch, 3);
    assert_eq!(instrument.note_at(-4).unwrap().pitch, 0);
    assert!(instrument.note_at(4).is_none());
    assert!(instrument.note_at(-5).is_none());
}

#[test]
fn inspect_mut_changes_the_value_inside() {
    let seen = Some(3u8).inspect_mut(|value| *value += 1);
    assert_eq!(seen, Some(4));
    let mut calls = 0;
    let nothing = None::<u8>.inspect_mut(|value| {
        calls += 1;
        *value = 9;
    });
    assert_eq!(nothing, None);
    assert_eq!(calls, 0);
    let list = Some(vec![1, 2]).inspect_mut(|list| list.push(3));
    assert_eq!(list, Some(vec![1, 2, 3]));
}

#[test]
fn file_is_decoded_into_a_sequence() {
    let bytes: Vec<u8> = vec![
        b'M', b'T', b'h', b'd', 0, 0, 0, 6, 0, 1, 0, 1, 0x01, 0xE0, // parallel, one track, 480
        b'M', b'T', b'r', b'k', 0, 0, 0, 4, 0x00, 0xFF, 0x2F, 0x00,
    ];
    let sequence = decode_midi_file(&bytes).unwrap();
    assert_eq!(sequence.header.format, Format::Parallel);
    assert_eq!(sequence.header.timing, Timing::Metrical(480));
    assert_eq!(sequence.tracks.len(), 1);
    assert_eq!(sequence.tracks[0].len(), 1);
    let error = decode_midi_file(&bytes[..3]).unwrap_err();
    assert_eq!(error.kind, ErrorKind::Midly);
}
