use pretty_midi_rs::midi::{ChannelState, ControlChange, Instrument, Note, PitchBend, TickTime};

fn note(pitch: u8, velocity: u8, start: u32, end: u32) -> Note<TickTime> {
    Note { pitch, velocity, start_time: start, end_time: end }
}

fn only_instrument(channel: &mut ChannelState) -> Instrument<TickTime> {
    let mut instruments = channel.take_instruments();
    assert_eq!(instruments.len(), 1);
    instruments.remove(0)
}

#[test]
fn new_channel_has_nothing_pending_and_no_instrument() {
    let mut channel = ChannelState::new();
    for key in 0..128u8 {
        assert_eq!(channel.pending_count(key), 0);
    }
    assert_eq!(channel.current_program, 0);
    assert!(!channel.has_straggler());
    assert!(channel.take_instruments().is_empty());
}

#[test]
fn init_fills_an_empty_channel_with_a_list_for_each_pitch() {
    let mut channel = ChannelState::default();
    channel.init();
    channel.note_on(1, 127, 1);
    assert_eq!(channel.pending_count(127), 1);
    assert_eq!(channel.pending_count(0), 0);
    channel.init();
    assert_eq!(channel.pending_count(127), 1);
}

#[test]
fn note_on_waits_without_an_instrument() {
    let mut channel = ChannelState::new();
    channel.note_on(0, 60, 100);
    channel.note_on(5, 60, 90);
    channel.note_on(5, 61, 80);
    assert_eq!(channel.pending_count(60), 2);
    assert_eq!(channel.pending_count(61), 1);
    assert_eq!(channel.pending_count(62), 0);
    assert!(!channel.has_straggler());
    assert!(channel.take_instruments().is_empty());
}

#[test]
fn note_off_closes_every_pending_note_on_of_another_tick() {
    let mut channel = ChannelState::new();
    channel.note_on(0, 60, 100);
    channel.note_on(10, 60, 90);
    channel.note_on(20, 61, 80);
    channel.note_off(30, 60);
    assert_eq!(channel.pending_count(60), 0);
    assert_eq!(channel.pending_count(61), 1);
    let instrument = only_instrument(&mut channel);
    assert_eq!(instrument.program, 0);
    assert_eq!(instrument.notes, vec![note(60, 100, 0, 30), note(60, 90, 10, 30)]);
}

#[test]
fn note_off_without_pending_note_on_does_nothing() {
    let mut channel = ChannelState::new();
    channel.program_change(4);
    channel.note_off(30, 60);
    assert!(!channel.has_instrument(4));
    assert!(!channel.has_straggler());
    assert!(channel.take_instruments().is_empty());
}

#[test]
fn same_tick_note_on_and_note_off_are_not_paired() {
    let mut channel = ChannelState::new();
    channel.note_on(7, 60, 100);
    channel.note_off(7, 60);
    assert_eq!(channel.pending_count(60), 1);
    assert!(channel.has_instrument(0));
    let mut probe = ChannelState::new();
    probe.note_on(7, 60, 100);
    probe.note_off(7, 60);
    assert!(only_instrument(&mut probe).notes.is_empty());
    channel.note_off(9, 60);
    assert_eq!(channel.pending_count(60), 0);
    assert_eq!(only_instrument(&mut channel).notes, vec![note(60, 100, 7, 9)]);
}

#[test]
fn same_tick_note_on_never_closes_without_a_later_note_off() {
    let mut channel = ChannelState::new();
    channel.note_on(3, 10, 1);
    channel.note_on(7, 10, 2);
    channel.note_off(7, 10);
    channel.note_off(7, 10);
    assert_eq!(channel.pending_count(10), 1);
    assert_eq!(only_instrument(&mut channel).notes, vec![note(10, 1, 3, 7)]);
}

#[test]
fn program_change_touches_neither_notes_nor_instruments() {
    let mut channel = ChannelState::new();
    channel.note_on(0, 60, 100);
    channel.program_change(12);
    assert_eq!(channel.current_program, 12);
    assert_eq!(channel.pending_count(60), 1);
    assert!(!channel.has_instrument(12));
    channel.note_off(4, 60);
    let instrument = only_instrument(&mut channel);
    assert_eq!(instrument.program, 12);
    assert_eq!(instrument.notes, vec![note(60, 100, 0, 4)]);
}

#[test]
fn early_events_go_to_the_first_instrument_materialized() {
    let mut channel = ChannelState::new();
    channel.pitch_bend(9000, 1);
    channel.control_change(7, 100, 2);
    assert!(channel.has_straggler());
    assert!(!channel.has_instrument(0));
    channel.program_change(5);
    channel.note_on(3, 60, 100);
    assert!(channel.has_straggler());
    channel.note_off(8, 60);
    assert!(!channel.has_straggler());
    assert!(!channel.has_instrument(0));
    let instrument = only_instrument(&mut channel);
    assert_eq!(instrument.program, 5);
    assert_eq!(instrument.pitch_bends, vec![PitchBend { bend: 9000, time: 1 }]);
    assert_eq!(instrument.control_changes, vec![ControlChange { number: 7, value: 100, time: 2 }]);
    assert_eq!(instrument.notes, vec![note(60, 100, 3, 8)]);
}

#[test]
fn early_events_go_to_program_zero_where_it_is_the_first_materialized() {
    let mut channel = ChannelState::new();
    channel.pitch_bend(1, 1);
    channel.note_on(2, 1, 1);
    channel.note_off(3, 1);
    let instrument = only_instrument(&mut channel);
    assert_eq!(instrument.program, 0);
    assert_eq!(instrument.pitch_bends.len(), 1);
    assert_eq!(instrument.notes.len(), 1);
}

#[test]
fn straggler_that_no_program_claims_stays_a_straggler() {
    let mut channel = ChannelState::new();
    channel.program_change(9);
    channel.control_change(1, 2, 3);
    channel.control_change(4, 5, 6);
    assert!(channel.has_straggler());
    assert!(channel.take_instruments().is_empty());
    let straggler = channel.take_straggler().unwrap();
    assert_eq!(straggler.program, 0);
    assert_eq!(
        straggler.control_changes,
        vec![ControlChange { number: 1, value: 2, time: 3 }, ControlChange { number: 4, value: 5, time: 6 }]
    );
    assert!(!channel.has_straggler());
    assert!(channel.take_straggler().is_none());
}

#[test]
fn bend_goes_to_the_instrument_of_the_current_program_once_there_is_one() {
    let mut channel = ChannelState::new();
    channel.program_change(2);
    channel.note_on(0, 1, 1);
    channel.note_off(1, 1);
    channel.pitch_bend(100, 2);
    assert!(!channel.has_straggler());
    channel.program_change(3);
    channel.pitch_bend(200, 3);
    assert!(channel.has_straggler());
    channel.program_change(2);
    channel.pitch_bend(300, 4);
    let straggler = channel.take_straggler().unwrap();
    assert_eq!(straggler.pitch_bends, vec![PitchBend { bend: 200, time: 3 }, PitchBend { bend: 300, time: 4 }]);
    let instrument = only_instrument(&mut channel);
    assert_eq!(instrument.pitch_bends, vec![PitchBend { bend: 100, time: 2 }]);
}

#[test]
fn create_instrument_takes_the_straggler_under_the_program() {
    let mut channel = ChannelState::new();
    channel.pitch_bend(5, 5);
    channel.create_instrument(40);
    assert!(!channel.has_straggler());
    assert!(channel.has_instrument(40));
    channel.get_or_create_instrument(40);
    channel.get_or_create_instrument(41);
    let instruments = channel.take_instruments();
    assert_eq!(instruments.len(), 2);
    assert_eq!(instruments[0].program, 40);
    assert_eq!(instruments[0].pitch_bends.len(), 1);
    assert_eq!(instruments[1].program, 41);
    assert!(instruments[1].pitch_bends.is_empty());
}

#[test]
fn current_instrument_makes_a_straggler_only_where_nothing_is_there() {
    let mut channel = ChannelState::new();
    channel.current_instrument();
    assert!(channel.has_straggler());
    let mut with_program = ChannelState::new();
    with_program.create_instrument(0);
    with_program.current_instrument();
    assert!(!with_program.has_straggler());
}

#[test]
fn instruments_leave_the_channel_in_the_order_of_their_programs() {
    let mut channel = ChannelState::new();
    for program in [200u8, 3, 255, 0, 77] {
        channel.program_change(program);
        channel.note_on(1, program % 128, 9);
        channel.note_off(2, program % 128);
    }
    let programs: Vec<u8> = channel.take_instruments().iter().map(|instrument| instrument.program).collect();
    assert_eq!(programs, vec![0, 3, 77, 200, 255]);
    assert!(channel.take_instruments().is_empty());
}

#[test]
fn notes_go_to_the_straggler_while_there_is_one() {
    let mut channel = ChannelState::new();
    channel.program_change(2);
    channel.note_on(0, 1, 1);
    channel.note_off(1, 1);
    channel.program_change(3);
    channel.pitch_bend(200, 3);
    channel.program_change(2);
    channel.note_on(5, 9, 9);
    channel.note_off(6, 9);
    let straggler = channel.take_straggler().unwrap();
    assert_eq!(straggler.notes, vec![note(9, 9, 5, 6)]);
    assert_eq!(straggler.pitch_bends, vec![PitchBend { bend: 200, time: 3 }]);
    let instrument = only_instrument(&mut channel);
    assert_eq!(instrument.program, 2);
    assert_eq!(instrument.notes, vec![note(1, 1, 0, 1)]);
}
