use pretty_midi_rs::midi::{
    as_tempo_change, generate_tick_scales, get_timing, Format, Header, MetaMessage, MidiMessage,
    Sequence, TickScale, Timing, Track, TrackEvent, TrackEventKind, DEFAULT_TEMPO,
};
use pretty_midi_rs::err::ErrorKind;

fn tempo(tick: u32, micros_per_beat: u32) -> TrackEvent {
    TrackEvent { delta: tick, kind: TrackEventKind::Meta(MetaMessage::Tempo(micros_per_beat)) }
}

fn other(tick: u32) -> TrackEvent {
    TrackEvent { delta: tick, kind: TrackEventKind::Meta(MetaMessage::Other) }
}

fn seconds_per_tick(scale: TickScale, resolution: u16) -> f64 {
    scale.1 as f64 / (1_000_000.0 * resolution as f64)
}

#[test]
fn test_tick_scale_computation() {
    let track: Track = vec![
        other(0),
        tempo(0, 500_000),
        tempo(480, 600_000),
        other(500),
        tempo(960, 600_000),
        tempo(1440, 400_000),
        tempo(1440, 500_000),
    ];
    let reference: Vec<TickScale> = vec![(0, 500_000), (480, 600_000), (1440, 400_000), (1440, 500_000)];
    let generated = generate_tick_scales(&track);
    assert_eq!(generated.len(), reference.len());
    for (a, b) in generated.iter().zip(reference.iter()) {
        assert_eq!(a, b);
    }
    for (before, behind) in generated.iter().zip(generated.iter().skip(1)) {
        assert_ne!(before.1, behind.1);
    }
}

#[test]
fn tick_scale_in_seconds_follows_the_formula() {
    let generated = generate_tick_scales(&vec![tempo(0, 500_000)]);
    assert_eq!(generated, vec![(0, 500_000)]);
    let by_formula = 60.0 / ((60_000_000.0 / 500_000.0) * 480.0);
    assert!((seconds_per_tick(generated[0], 480) - by_formula).abs() < 1e-12);
}

#[test]
fn default_scale_is_put_in_front_of_a_late_first_tempo() {
    let generated = generate_tick_scales(&vec![tempo(10, 250_000)]);
    assert_eq!(generated, vec![(0, DEFAULT_TEMPO), (10, 250_000)]);
    assert_eq!(DEFAULT_TEMPO, 500_000);
    let at_120_bpm = 60.0 / (120.0 * 480.0);
    assert!((seconds_per_tick(generated[0], 480) - at_120_bpm).abs() < 1e-12);
}

#[test]
fn default_scale_alone_where_no_tempo_is_set() {
    assert_eq!(generate_tick_scales(&vec![]), vec![(0, DEFAULT_TEMPO)]);
    assert_eq!(generate_tick_scales(&vec![other(0), other(7)]), vec![(0, DEFAULT_TEMPO)]);
}

#[test]
fn no_scale_is_put_in_front_of_a_tempo_at_tick_zero() {
    assert_eq!(generate_tick_scales(&vec![tempo(0, 300_000)]), vec![(0, 300_000)]);
}

#[test]
fn repeated_tempo_is_kept_once() {
    let track = vec![tempo(0, 400_000), tempo(5, 400_000), tempo(9, 400_000), tempo(12, 1), tempo(20, 400_000)];
    assert_eq!(generate_tick_scales(&track), vec![(0, 400_000), (12, 1), (20, 400_000)]);
}

#[test]
fn late_first_tempo_that_is_the_default_follows_the_default() {
    let generated = generate_tick_scales(&vec![tempo(3, DEFAULT_TEMPO)]);
    assert_eq!(generated, vec![(0, DEFAULT_TEMPO), (3, DEFAULT_TEMPO)]);
}

#[test]
fn tempo_map_is_a_function_of_the_track() {
    let track = vec![tempo(0, 400_000), other(1), tempo(5, 400_000), tempo(9, 700_000)];
    let first = generate_tick_scales(&track);
    let second = generate_tick_scales(&track);
    assert_eq!(first, second);
    let again: Track = first.iter().map(|scale| tempo(scale.0, scale.1)).collect();
    assert_eq!(generate_tick_scales(&again), first);
}

#[test]
fn tempo_change_is_read_from_tempo_events_only() {
    assert_eq!(as_tempo_change(&tempo(17, 123_456)), Some((17, 123_456)));
    assert_eq!(as_tempo_change(&other(17)), None);
    let name = TrackEvent { delta: 1, kind: TrackEventKind::Meta(MetaMessage::TrackName(vec![65])) };
    assert_eq!(as_tempo_change(&name), None);
    let note = TrackEvent {
        delta: 1,
        kind: TrackEventKind::Midi { channel: 0, message: MidiMessage::NoteOn { key: 1, vel: 1 } },
    };
    assert_eq!(as_tempo_change(&note), None);
    assert_eq!(as_tempo_change(&TrackEvent { delta: 1, kind: TrackEventKind::SysEx }), None);
}

#[test]
fn metrical_timing_gives_the_resolution() {
    let smf = Sequence { header: Header { format: Format::Parallel, timing: Timing::Metrical(480) }, tracks: vec![] };
    assert_eq!(get_timing(&smf).unwrap(), 480);
}

#[test]
fn timecode_timing_is_refused() {
    let smf = Sequence { header: Header { format: Format::Parallel, timing: Timing::Timecode(25, 40) }, tracks: vec![] };
    let error = get_timing(&smf).unwrap_err();
    assert_eq!(error.kind, ErrorKind::Generic);
    assert_eq!(error.message, "Non metrical timing not supported.");
}
