use pretty_midi_rs::midi::{
    ControlChange, Instrument, Note, PitchBend, RealTime, TickMicros, TickScale, TickTime,
};

fn note(pitch: u8, velocity: u8, start: u32, end: u32) -> Note<TickTime> {
    Note { pitch, velocity, start_time: start, end_time: end }
}

fn instrument(notes: Vec<Note<TickTime>>) -> Instrument<TickTime> {
    let mut instrument = Instrument::<TickTime>::new(3);
    instrument.notes = notes;
    instrument
}

fn seconds(time: TickMicros, resolution: u16) -> f64 {
    time as f64 / (1_000_000.0 * resolution as f64)
}

#[test]
fn one_segment_scales_linearly() {
    let scales: Vec<TickScale> = vec![(0, 500_000)];
    let real = instrument(vec![note(60, 100, 0, 480), note(62, 90, 480, 720)]).to_real_time(&scales);
    assert_eq!(real.notes.len(), 2);
    assert_eq!(real.notes[0], Note::<RealTime> { pitch: 60, velocity: 100, start_time: 0, end_time: 240_000_000 });
    assert_eq!(real.notes[1], Note::<RealTime> { pitch: 62, velocity: 90, start_time: 240_000_000, end_time: 360_000_000 });
    assert!((seconds(real.notes[0].end_time, 480) - 0.5).abs() < 1e-9);
    assert!((seconds(real.notes[1].end_time, 480) - 0.75).abs() < 1e-9);
}

#[test]
fn later_segment_starts_from_the_time_passed_before_it() {
    let scales: Vec<TickScale> = vec![(0, 500_000), (480, 1_000_000), (960, 250_000)];
    let real = instrument(vec![note(1, 1, 100, 200), note(2, 2, 600, 700), note(3, 3, 1000, 1100)])
        .to_real_time(&scales);
    assert_eq!(real.notes[0].start_time, 100 * 500_000);
    assert_eq!(real.notes[0].end_time, 200 * 500_000);
    assert_eq!(real.notes[1].start_time, 480 * 500_000 + 120 * 1_000_000);
    assert_eq!(real.notes[1].end_time, 480 * 500_000 + 220 * 1_000_000);
    assert_eq!(real.notes[2].start_time, 480 * 500_000 + 480 * 1_000_000 + 40 * 250_000);
    assert_eq!(real.notes[2].end_time, 480 * 500_000 + 480 * 1_000_000 + 140 * 250_000);
    assert!((seconds(real.notes[2].start_time, 480) - 1.5208333333).abs() < 1e-9);
}

#[test]
fn note_at_a_breakpoint_belongs_to_the_segment_before_it() {
    let scales: Vec<TickScale> = vec![(0, 500_000), (480, 1_000_000)];
    let real = instrument(vec![note(1, 1, 480, 490), note(2, 2, 481, 490)]).to_real_time(&scales);
    assert_eq!(real.notes[0].start_time, 480 * 500_000);
    assert_eq!(real.notes[0].end_time, 490 * 500_000);
    assert_eq!(real.notes[1].start_time, 480 * 500_000 + 1_000_000);
    assert_eq!(real.notes[1].end_time, 480 * 500_000 + 10 * 1_000_000);
}

#[test]
fn end_is_measured_in_the_segment_of_the_start() {
    let scales: Vec<TickScale> = vec![(0, 500_000), (480, 1_000_000)];
    let real = instrument(vec![note(1, 1, 0, 960)]).to_real_time(&scales);
    assert_eq!(real.notes[0].start_time, 0);
    assert_eq!(real.notes[0].end_time, 960 * 500_000);
}

#[test]
fn ordered_starts_give_ordered_real_starts() {
    let scales: Vec<TickScale> = vec![(0, 700_000), (10, 1), (10, 900_000), (300, 0), (400, 5)];
    let starts = [0u32, 0, 5, 10, 11, 11, 250, 300, 301, 399, 400, 401, 70_000, u32::MAX];
    let notes = starts.iter().map(|start| note(1, 1, *start, *start)).collect();
    let real = instrument(notes).to_real_time(&scales);
    assert_eq!(real.notes.len(), starts.len());
    for pair in real.notes.windows(2) {
        assert!(pair[0].start_time <= pair[1].start_time);
    }
}

#[test]
fn scan_never_goes_back_for_an_earlier_start() {
    let scales: Vec<TickScale> = vec![(0, 500_000), (480, 1_000_000)];
    let real = instrument(vec![note(1, 1, 600, 700), note(2, 2, 100, 200)]).to_real_time(&scales);
    assert_eq!(real.notes[0].start_time, 480 * 500_000 + 120 * 1_000_000);
    assert_eq!(real.notes[1].start_time, 480 * 500_000 - 380 * 1_000_000);
    assert_eq!(real.notes[1].end_time, 480 * 500_000 - 280 * 1_000_000);
}

#[test]
fn first_segment_is_measured_from_tick_zero() {
    let scales: Vec<TickScale> = vec![(50, 2), (100, 3)];
    let real = instrument(vec![note(1, 1, 10, 20), note(1, 1, 150, 160)]).to_real_time(&scales);
    assert_eq!(real.notes[0].start_time, 20);
    assert_eq!(real.notes[0].end_time, 40);
    assert_eq!(real.notes[1].start_time, 100 * 2 + 50 * 3);
}

#[test]
fn greatest_ticks_and_tempos_fit() {
    let scales: Vec<TickScale> = vec![(0, u32::MAX), (u32::MAX - 1, u32::MAX)];
    let real = instrument(vec![note(1, 1, u32::MAX, 0)]).to_real_time(&scales);
    let max = u32::MAX as i128;
    assert_eq!(real.notes[0].start_time, (max - 1) * max + max);
    assert_eq!(real.notes[0].end_time, (max - 1) * max - (max - 1) * max);
}

#[test]
fn bends_and_controls_keep_their_ticks() {
    let mut ticks = instrument(vec![note(1, 2, 3, 4)]);
    ticks.name = String::from("lead");
    ticks.pitch_bends.push(PitchBend { bend: 8192, time: 77 });
    ticks.control_changes.push(ControlChange { number: 7, value: 100, time: 99 });
    let real = ticks.to_real_time(&[(0, 10)]);
    assert_eq!(real.program, 3);
    assert_eq!(real.name, "lead");
    assert_eq!(real.pitch_bends, vec![PitchBend { bend: 8192, time: 77 }]);
    assert_eq!(real.control_changes, vec![ControlChange { number: 7, value: 100, time: 99 }]);
    assert_eq!(real.notes, vec![Note::<RealTime> { pitch: 1, velocity: 2, start_time: 30, end_time: 40 }]);
}

#[test]
fn instrument_without_notes_converts_to_one_without_notes() {
    let real = Instrument::<TickTime>::new(9).to_real_time(&[(0, 1)]);
    assert!(real.notes.is_empty());
    assert!(real.is_drum());
    assert!(!Instrument::<RealTime>::new(8).is_drum());
}
