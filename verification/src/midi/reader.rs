//! Reading a sequence: absolute ticks, the replay of its tracks, and the
//! instruments in real time.

use std::collections::VecDeque;
use vstd::prelude::*;

use crate::err::{Error, ErrorKind};
use crate::midi::convert::is_real_time_of;
use crate::midi::event::{is_chronological, Format, Sequence, SequenceView, Timing, Track, TrackEvent};
use crate::midi::tempo::{
    generate_tick_scales, get_timing, is_tempo_map, non_metrical_cause, tick_scales, TickScale,
};
use crate::midi::time::{instrument_views, Instrument, InstrumentView, RealTime, TickTime};
use crate::midi::track::{
    all_accepted, event_accepted, event_refusal, initial_track, TrackState, TrackView, CHANNELS,
};

verus! {

/// The ticks that have passed after the first `n` events of a track: the
/// sum of their deltas.
pub open spec fn elapsed(track: Seq<TrackEvent>, n: int) -> int
    decreases n,
{
    if n <= 0 || n > track.len() {
        0
    } else {
        elapsed(track, n - 1) + track[n - 1].delta
    }
}

/// The tick of event `i` of a track since the start of the track: the sum
/// of the deltas up to and with its own.
pub open spec fn absolute_tick(track: Seq<TrackEvent>, i: int) -> int {
    elapsed(track, i + 1)
}

/// The ticks that a track lasts.
pub open spec fn total_ticks(track: Seq<TrackEvent>) -> int {
    elapsed(track, track.len() as int)
}

/// Up to event `upto`, `made` is `track` with absolute ticks in place of
/// the deltas; from there on it is `track`.
pub open spec fn is_absolute_upto(made: Seq<TrackEvent>, track: Seq<TrackEvent>, upto: int) -> bool {
    &&& made.len() == track.len()
    &&& forall|i: int| 0 <= i < upto && i < track.len() ==> (#[trigger] made[i]).kind == track[i].kind && made[i].delta
            == absolute_tick(track, i)
    &&& forall|i: int| upto <= i < track.len() ==> #[trigger] made[i] == track[i]
}

/// `made` is `track` with absolute ticks in place of the deltas.
pub open spec fn is_absolute_of(made: Seq<TrackEvent>, track: Seq<TrackEvent>) -> bool {
    is_absolute_upto(made, track, track.len() as int)
}

/// The cause given where a track lasts more ticks than 32 bits count.
pub open spec fn overflow_cause() -> Seq<char> {
    "Track is longer than 32-bit ticks can tell."@
}

/// The ticks that have passed do not fall along a track.
pub proof fn lemma_elapsed_monotone(track: Seq<TrackEvent>, n: int, m: int)
    requires
        0 <= n <= m <= track.len(),
    ensures
        0 <= elapsed(track, n) <= elapsed(track, m),
    decreases m,
{
    if n < m {
        lemma_elapsed_monotone(track, n, m - 1);
    } else if n > 0 {
        lemma_elapsed_monotone(track, n - 1, n - 1);
    }
}

/// A track with absolute ticks is chronological.
pub proof fn lemma_absolute_is_chronological(made: Seq<TrackEvent>, track: Seq<TrackEvent>)
    requires
        is_absolute_of(made, track),
    ensures
        is_chronological(made),
{
    assert forall|i: int, j: int| 0 <= i <= j < made.len() implies made[i].delta <= made[j].delta by {
        lemma_elapsed_monotone(track, i + 1, j + 1);
    }
}

/// Rewrites the deltas of a track into absolute ticks, in place, up to the
/// first event whose tick does not fit.
fn make_absolute_in_place(track: &mut Track) -> (fits: bool)
    ensures
        fits == (total_ticks(old(track)@) <= u32::MAX),
        fits ==> is_absolute_of(final(track)@, old(track)@),
        !fits ==> exists|first: int|
            0 <= first < old(track)@.len() && absolute_tick(old(track)@, first) > u32::MAX && #[trigger] is_absolute_upto(
                final(track)@,
                old(track)@,
                first,
            ),
{
    let mut time: u32 = 0;
    let mut i: usize = 0;
    while i < track.len()
        invariant
            i <= track.len(),
            is_absolute_upto(track@, old(track)@, i as int),
            time == elapsed(old(track)@, i as int),
        decreases track.len() - i,
    {
        match time.checked_add(track[i].delta) {
            Some(tick) => {
                time = tick;
                track[i].delta = tick;
            },
            None => {
                proof {
                    lemma_elapsed_monotone(old(track)@, i + 1, old(track)@.len() as int);
                    assert(is_absolute_upto(track@, old(track)@, i as int));
                }
                return false;
            },
        }
        i = i + 1;
    }
    true
}

/// Rewrites the deltas of a track into absolute ticks. A track that lasts
/// more ticks than 32 bits count is refused.
pub fn make_track_time_absolute(track: Track) -> (r: Result<Track, Error>)
    ensures
        match r {
            Ok(made) => total_ticks(track@) <= u32::MAX && is_absolute_of(made@, track@) && is_chronological(made@),
            Err(e) => total_ticks(track@) > u32::MAX && e.kind == ErrorKind::Generic && e.message@
                == overflow_cause(),
        },
{
    let mut made = track;
    if make_absolute_in_place(&mut made) {
        proof {
            lemma_absolute_is_chronological(made@, track@);
        }
        Ok(made)
    } else {
        Err(Error::generic("Track is longer than 32-bit ticks can tell."))
    }
}

/// The tick behind the last event of the sequence: one more than the
/// greatest tick at which a track ends. The tracks carry absolute ticks;
/// there is at least one, none is empty, and none ends at the last tick
/// that 32 bits count.
pub fn get_max_tick(tracks: &Vec<Track>) -> (tick: u32)
    requires
        tracks@.len() > 0,
        forall|t: int| 0 <= t < tracks@.len() ==> (#[trigger] tracks@[t])@.len() > 0 && tracks@[t]@.last().delta < u32::MAX,
    ensures
        exists|t: int| 0 <= t < tracks@.len() && tick == (#[trigger] tracks@[t])@.last().delta + 1,
        forall|t: int| 0 <= t < tracks@.len() ==> (#[trigger] tracks@[t])@.last().delta < tick,
{
    let mut max: u32 = 0;
    let mut t: usize = 0;
    while t < tracks.len()
        invariant
            t <= tracks.len(),
            tracks@.len() > 0,
            forall|u: int| 0 <= u < tracks@.len() ==> (#[trigger] tracks@[u])@.len() > 0 && tracks@[u]@.last().delta < u32::MAX,
            forall|u: int| 0 <= u < t ==> (#[trigger] tracks@[u])@.last().delta <= max,
            t > 0 ==> exists|u: int| 0 <= u < t && max == (#[trigger] tracks@[u])@.last().delta,
        decreases tracks.len() - t,
    {
        let track = &tracks[t];
        let last: u32 = track[track.len() - 1].delta;
        if t == 0 || last > max {
            max = last;
        }
        assert(max == tracks@[t as int]@.last().delta || exists|u: int| 0 <= u < t && max == (#[trigger] tracks@[u])@.last().delta);
        t = t + 1;
    }
    proof {
        let found = choose|u: int| 0 <= u < tracks@.len() && max == (#[trigger] tracks@[u])@.last().delta;
        assert(tracks@[found]@.last().delta < u32::MAX);
    }
    max + 1
}

/// The breakpoints of a tempo map, one behind the other in memory.
fn copy_scales(scales: &VecDeque<TickScale>) -> (copy: Vec<TickScale>)
    ensures
        copy@ == scales@,
{
    let mut copy: Vec<TickScale> = Vec::new();
    let mut i: usize = 0;
    while i < scales.len()
        invariant
            i <= scales@.len(),
            copy@ == scales@.take(i as int),
        decreases scales@.len() - i,
    {
        copy.push(scales[i]);
        assert(copy@ =~= scales@.take(i + 1));
        i = i + 1;
    }
    assert(scales@.take(scales@.len() as int) =~= scales@);
    copy
}

/// Reads the instruments of a sequence.
pub struct MidiReader {
    /// The sequence, its tracks in absolute ticks.
    pub smf: Sequence,
    /// The states of the tracks that have been replayed.
    pub track_state: Vec<TrackState>,
    /// The number of tracks in front that hold no music: the first track
    /// is kept for the tempo.
    pub track_offset: usize,
}

/// The states of tracks as mathematical values.
pub open spec fn track_views(states: Seq<TrackState>) -> Seq<TrackView> {
    Seq::new(states.len(), |i: int| states[i]@)
}

/// Whether every event of the tracks from `first` on can be applied.
pub open spec fn tracks_accepted(tracks: Seq<Seq<TrackEvent>>, first: int) -> bool {
    forall|t: int| first <= t < tracks.len() ==> all_accepted(#[trigger] tracks[t])
}

/// Event `i` of track `t` is the first from track `first` on that cannot be
/// applied.
pub open spec fn is_first_refused(tracks: Seq<Seq<TrackEvent>>, first: int, t: int, i: int) -> bool {
    &&& first <= t < tracks.len()
    &&& 0 <= i < tracks[t].len()
    &&& !event_accepted(tracks[t][i])
    &&& forall|u: int| first <= u < t ==> all_accepted(#[trigger] tracks[u])
    &&& forall|j: int| 0 <= j < i ==> event_accepted(#[trigger] tracks[t][j])
}

/// `e` is the error with which the replay of the tracks from `first` on
/// stops: it gives the cause for which the first event that cannot be
/// applied is refused.
pub open spec fn is_replay_refusal(tracks: Seq<Seq<TrackEvent>>, first: int, e: Error) -> bool {
    exists|t: int, i: int| #[trigger]
        is_first_refused(tracks, first, t, i) && e.kind == ErrorKind::Generic && e.message@ == event_refusal(
            tracks[t][i],
        )
}

/// The states in which the replay leaves the tracks from `first` up to
/// `upto`.
pub open spec fn replayed_tracks(tracks: Seq<Seq<TrackEvent>>, first: int, upto: int) -> Seq<TrackView> {
    Seq::new((upto - first) as nat, |i: int| initial_track().replayed(tracks[first + i]))
}

/// The instruments of the first `upto` states: track by track, within a
/// track channel by channel, within a channel in the order of the
/// programs.
pub open spec fn instruments_of(states: Seq<TrackView>, upto: int) -> Seq<InstrumentView<TickTime>>
    decreases upto,
{
    if upto <= 0 {
        Seq::empty()
    } else {
        instruments_of(states, upto - 1) + states[upto - 1].instruments(CHANNELS as int)
    }
}

/// The states without their instruments.
pub open spec fn drained_states(states: Seq<TrackView>) -> Seq<TrackView> {
    Seq::new(states.len(), |i: int| states[i].drained(CHANNELS as int))
}

/// The cause given where the tracks of a sequence are not laid out side
/// by side.
pub open spec fn format_cause() -> Seq<char> {
    "SMF formats other than parallel (format 1) are not currently supported."@
}

/// The cause given where a sequence has no track.
pub open spec fn no_tracks_cause() -> Seq<char> {
    "The sequence has no tracks."@
}

/// Whether a sequence can be read: its tracks are laid out side by side,
/// there is at least one, and none lasts more ticks than 32 bits count.
pub open spec fn is_readable(smf: SequenceView) -> bool {
    &&& smf.header.format is Parallel
    &&& smf.tracks.len() > 0
    &&& forall|t: int| 0 <= t < smf.tracks.len() ==> total_ticks(#[trigger] smf.tracks[t]) <= u32::MAX
}

/// The cause with which a sequence that cannot be read is refused.
pub open spec fn refusal(smf: SequenceView) -> Seq<char> {
    if !(smf.header.format is Parallel) {
        format_cause()
    } else if smf.tracks.len() == 0 {
        no_tracks_cause()
    } else {
        overflow_cause()
    }
}

/// A track with absolute ticks in place of its deltas.
pub open spec fn made_absolute(track: Seq<TrackEvent>) -> Seq<TrackEvent> {
    Seq::new(track.len(), |i: int| TrackEvent { delta: absolute_tick(track, i) as u32, kind: track[i].kind })
}

/// A sequence with absolute ticks in place of the deltas of its tracks.
pub open spec fn with_absolute_ticks(smf: SequenceView) -> SequenceView {
    SequenceView { tracks: Seq::new(smf.tracks.len(), |t: int| made_absolute(smf.tracks[t])), ..smf }
}

/// There is one track with absolute ticks in place of the deltas of a
/// track that fits.
pub proof fn lemma_absolute_is_made_absolute(made: Seq<TrackEvent>, track: Seq<TrackEvent>)
    requires
        is_absolute_of(made, track),
        total_ticks(track) <= u32::MAX,
    ensures
        made == made_absolute(track),
{
    assert forall|i: int| 0 <= i < track.len() implies made[i] == made_absolute(track)[i] by {
        lemma_elapsed_monotone(track, i + 1, track.len() as int);
    }
    assert(made =~= made_absolute(track));
}

impl MidiReader {
    /// The first track is the tempo track and there is one, every track is
    /// chronological, and every state has its channels with their pending
    /// lists.
    pub open spec fn wf(&self) -> bool {
        &&& self.track_offset == 1
        &&& self.smf.tracks@.len() > 0
        &&& forall|t: int| 0 <= t < self.smf.tracks@.len() ==> is_chronological(#[trigger] self.smf.tracks@[t]@)
        &&& forall|i: int| 0 <= i < self.track_state@.len() ==> (#[trigger] self.track_state@[i])@.wf()
    }

    /// The states from which the instruments are read next: those of the
    /// tracks replayed so far, or else of a replay of every track behind
    /// the first.
    pub open spec fn states_to_read(&self) -> Seq<TrackView> {
        if self.track_state@.len() == 0 {
            replayed_tracks(self.smf@.tracks, 1, self.smf.tracks@.len() as int)
        } else {
            track_views(self.track_state@)
        }
    }

    /// Takes a sequence whose tracks are laid out side by side and rewrites
    /// the deltas of each track into absolute ticks. Any other sequence is
    /// refused, and so is one without tracks or with a track that lasts
    /// more ticks than 32 bits count.
    pub fn new(src: Sequence) -> (r: Result<MidiReader, Error>)
        ensures
            match r {
                Ok(reader) => {
                    &&& is_readable(src@)
                    &&& reader.wf()
                    &&& reader.smf@ == with_absolute_ticks(src@)
                    &&& reader.track_state@.len() == 0
                },
                Err(e) => !is_readable(src@) && e.kind == ErrorKind::Generic && e.message@ == refusal(src@),
            },
    {
        match src.header.format {
            Format::Parallel => {},
            _ => {
                return Err(
                    Error::generic("SMF formats other than parallel (format 1) are not currently supported."),
                );
            },
        }
        if src.tracks.len() == 0 {
            return Err(Error::generic("The sequence has no tracks."));
        }
        let mut smf = src;
        let mut t: usize = 0;
        while t < smf.tracks.len()
            invariant
                t <= smf.tracks@.len(),
                src.header.format is Parallel,
                src.tracks@.len() > 0,
                smf.header == src.header,
                smf.tracks@.len() == src.tracks@.len(),
                forall|u: int| 0 <= u < t ==> is_absolute_of((#[trigger] smf.tracks@[u])@, src.tracks@[u]@)
                    && total_ticks(src.tracks@[u]@) <= u32::MAX,
                forall|u: int| t <= u < src.tracks@.len() ==> #[trigger] smf.tracks@[u] == src.tracks@[u],
            decreases smf.tracks@.len() - t,
        {
            assert(smf.tracks@[t as int] == src.tracks@[t as int]);
            if !make_absolute_in_place(&mut smf.tracks[t]) {
                assert(total_ticks(src@.tracks[t as int]) > u32::MAX);
                return Err(Error::generic("Track is longer than 32-bit ticks can tell."));
            }
            t = t + 1;
        }
        proof {
            assert forall|u: int| 0 <= u < src@.tracks.len() implies total_ticks(#[trigger] src@.tracks[u])
                <= u32::MAX by {
                assert(is_absolute_of(smf.tracks@[u]@, src.tracks@[u]@));
            }
            assert forall|u: int| 0 <= u < smf.tracks@.len() implies is_chronological(#[trigger] smf.tracks@[u]@) by {
                lemma_absolute_is_chronological(smf.tracks@[u]@, src.tracks@[u]@);
            }
            assert forall|u: int| 0 <= u < smf.tracks@.len() implies smf@.tracks[u] == with_absolute_ticks(
                src@,
            ).tracks[u] by {
                assert(is_absolute_of(smf.tracks@[u]@, src.tracks@[u]@));
                lemma_absolute_is_made_absolute(smf.tracks@[u]@, src.tracks@[u]@);
            }
            assert(smf@.tracks =~= with_absolute_ticks(src@).tracks);
        }
        Ok(MidiReader { smf, track_state: Vec::new(), track_offset: 1 })
    }

    /// The resolution of the sequence in ticks per beat.
    pub fn resolution(&self) -> (r: Result<u16, Error>)
        ensures
            match self.smf.header.timing {
                Timing::Metrical(ticks_per_beat) => r == Ok::<u16, Error>(ticks_per_beat),
                Timing::Timecode(_, _) => r is Err && r->Err_0.kind == ErrorKind::Generic
                    && r->Err_0.message@ == non_metrical_cause(),
            },
    {
        get_timing(&self.smf)
    }

    /// Replays every track behind the first, each on a state of its own,
    /// and puts the states behind those that are there. Where an event
    /// cannot be applied nothing is put there.
    pub fn build_track_state(&mut self) -> (r: Result<(), Error>)
        requires
            old(self).wf(),
        ensures
            final(self).wf(),
            final(self).smf == old(self).smf,
            match r {
                Ok(_) => {
                    &&& tracks_accepted(old(self).smf@.tracks, 1)
                    &&& track_views(final(self).track_state@) == track_views(old(self).track_state@) + replayed_tracks(
                        old(self).smf@.tracks,
                        1,
                        old(self).smf@.tracks.len() as int,
                    )
                },
                Err(e) => {
                    &&& !tracks_accepted(old(self).smf@.tracks, 1)
                    &&& is_replay_refusal(old(self).smf@.tracks, 1, e)
                    &&& final(self).track_state@ == old(self).track_state@
                },
            },
    {
        let ghost tracks = self.smf@.tracks;
        let mut built: Vec<TrackState> = Vec::new();
        let mut t: usize = self.track_offset;
        while t < self.smf.tracks.len()
            invariant
                1 <= t <= self.smf.tracks@.len(),
                *self == *old(self),
                old(self).wf(),
                tracks == self.smf@.tracks,
                forall|u: int| 1 <= u < t ==> all_accepted(#[trigger] tracks[u]),
                track_views(built@) == replayed_tracks(tracks, 1, t as int),
                forall|i: int| 0 <= i < built@.len() ==> (#[trigger] built@[i])@.wf(),
            decreases self.smf.tracks@.len() - t,
        {
            let mut state = TrackState::new();
            let track = &self.smf.tracks[t];
            assert(track@ == tracks[t as int]);
            let mut i: usize = 0;
            assert(track@.take(0) =~= Seq::<TrackEvent>::empty());
            while i < track.len()
                invariant
                    i <= track@.len(),
                    *self == *old(self),
                    old(self).wf(),
                    tracks == self.smf@.tracks,
                    1 <= t < tracks.len(),
                    forall|u: int| 1 <= u < t ==> all_accepted(#[trigger] tracks[u]),
                    track@ == tracks[t as int],
                    state@.wf(),
                    state@ == initial_track().replayed(track@.take(i as int)),
                    all_accepted(track@.take(i as int)),
                decreases track@.len() - i,
            {
                proof {
                    assert(track@.take(i + 1).drop_last() =~= track@.take(i as int));
                    assert(track@.take(i + 1).last() == track@[i as int]);
                }
                match state.apply_event(&track[i]) {
                    Ok(_) => {},
                    Err(e) => {
                        assert(!event_accepted(tracks[t as int][i as int]));
                        assert(!all_accepted(tracks[t as int]));
                        assert forall|j: int| 0 <= j < i implies event_accepted(#[trigger] tracks[t as int][j]) by {
                            assert(track@.take(i as int)[j] == tracks[t as int][j]);
                        }
                        assert(is_first_refused(tracks, 1, t as int, i as int));
                        return Err(e);
                    },
                }
                proof {
                    assert forall|j: int| 0 <= j < i + 1 implies event_accepted(#[trigger] track@.take(i + 1)[j]) by {
                        if j < i {
                            assert(track@.take(i + 1)[j] == track@.take(i as int)[j]);
                        }
                    }
                }
                i = i + 1;
            }
            assert(track@.take(track@.len() as int) =~= track@);
            let ghost before = track_views(built@);
            built.push(state);
            assert(track_views(built@) =~= replayed_tracks(tracks, 1, t + 1)) by {
                assert(track_views(built@) =~= before.push(state@));
            }
            t = t + 1;
        }
        let ghost held = track_views(self.track_state@);
        let ghost fresh = track_views(built@);
        let ghost fresh_states = built@;
        self.track_state.append(&mut built);
        assert(track_views(self.track_state@) =~= held + fresh);
        assert forall|i: int| 0 <= i < self.track_state@.len() implies (#[trigger] self.track_state@[i])@.wf() by {
            if i >= old(self).track_state@.len() {
                assert(self.track_state@[i] == fresh_states[i - old(self).track_state@.len()]);
            } else {
                assert(self.track_state@[i] == old(self).track_state@[i]);
            }
        }
        Ok(())
    }

    /// Hands out the instruments of the sequence in real time, in the order
    /// of their tracks, within a track of their channels, within a channel
    /// of their programs. The tracks behind the first are replayed unless
    /// states of an earlier replay are there; the tempo map is that of the
    /// first track. The instruments leave the states: what is handed out
    /// once is not handed out again. A sequence that does not count its
    /// ticks per beat is refused, and so is an event that cannot be
    /// applied.
    ///
    /// The notes of an instrument stand in the order in which they were
    /// closed, which need not be the order of their starts: a note that
    /// was held while later ones came and went stands behind them. The
    /// notes are converted in that order, by one scan that never goes
    /// back, so where the tempo changes between two such starts the
    /// earlier start is measured in the segment of the later one; its real
    /// start is then not its time on the tempo map and can be negative.
    pub fn build_instrument_data(&mut self) -> (r: Result<Vec<Instrument<RealTime>>, Error>)
        requires
            old(self).wf(),
        ensures
            final(self).wf(),
            final(self).smf == old(self).smf,
            match r {
                Ok(list) => {
                    let states = old(self).states_to_read();
                    let ticks = instruments_of(states, states.len() as int);
                    &&& old(self).smf.header.timing is Metrical
                    &&& old(self).track_state@.len() == 0 ==> tracks_accepted(old(self).smf@.tracks, 1)
                    &&& list@.len() == ticks.len()
                    &&& forall|i: int| 0 <= i < ticks.len() ==> is_real_time_of(
                            tick_scales(old(self).smf@.tracks[0]),
                            ticks[i],
                            (#[trigger] list@[i])@,
                        )
                    &&& track_views(final(self).track_state@) == drained_states(states)
                },
                Err(e) => {
                    &&& final(self).track_state@ == old(self).track_state@
                    &&& if old(self).smf.header.timing is Metrical {
                        &&& old(self).track_state@.len() == 0
                        &&& !tracks_accepted(old(self).smf@.tracks, 1)
                        &&& is_replay_refusal(old(self).smf@.tracks, 1, e)
                    } else {
                        e.kind == ErrorKind::Generic && e.message@ == non_metrical_cause()
                    }
                },
            },
    {
        match get_timing(&self.smf) {
            Ok(_) => {},
            Err(e) => {
                return Err(e);
            },
        }
        if self.track_state.len() == 0 {
            match self.build_track_state() {
                Ok(_) => {
                    assert(track_views(self.track_state@) =~= old(self).states_to_read());
                },
                Err(e) => {
                    return Err(e);
                },
            }
        }
        let ghost states = track_views(self.track_state@);
        let scales = copy_scales(&generate_tick_scales(&self.smf.tracks[0]));
        let mut list: Vec<Instrument<RealTime>> = Vec::new();
        let mut s: usize = 0;
        while s < self.track_state.len()
            invariant
                s <= self.track_state@.len(),
                self.smf == old(self).smf,
                self.track_offset == old(self).track_offset,
                self.track_state@.len() == states.len(),
                is_tempo_map(scales@),
                forall|i: int| 0 <= i < s ==> (#[trigger] self.track_state@[i])@ == states[i].drained(CHANNELS as int),
                forall|i: int| s <= i < states.len() ==> (#[trigger] self.track_state@[i])@ == states[i],
                forall|i: int| 0 <= i < states.len() ==> (#[trigger] states[i]).wf(),
                list@.len() == instruments_of(states, s as int).len(),
                forall|i: int| 0 <= i < list@.len() ==> is_real_time_of(
                    scales@,
                    instruments_of(states, s as int)[i],
                    (#[trigger] list@[i])@,
                ),
            decreases self.track_state@.len() - s,
        {
            let ghost done = instruments_of(states, s as int);
            let mut taken = self.track_state[s].take_instruments();
            let ghost part = instrument_views(taken@);
            assert(instruments_of(states, s + 1) == done + part);
            let mut i: usize = 0;
            while i < taken.len()
                invariant
                    i <= taken@.len(),
                    taken@.len() == part.len(),
                    is_tempo_map(scales@),
                    forall|j: int| i <= j < part.len() ==> (#[trigger] taken@[j])@ == part[j],
                    list@.len() == done.len() + i,
                    forall|j: int| 0 <= j < list@.len() ==> is_real_time_of(
                        scales@,
                        (done + part)[j],
                        (#[trigger] list@[j])@,
                    ),
                decreases taken@.len() - i,
            {
                let mut instrument: Instrument<TickTime> = Instrument::new(0);
                core::mem::swap(&mut instrument, &mut taken[i]);
                assert(instrument@ == part[i as int]);
                let ghost before = list@;
                list.push(instrument.to_real_time(scales.as_slice()));
                assert forall|j: int| 0 <= j < list@.len() implies is_real_time_of(
                    scales@,
                    (done + part)[j],
                    (#[trigger] list@[j])@,
                ) by {
                    if j < before.len() {
                        assert(list@[j] == before[j]);
                    }
                }
                i = i + 1;
            }
            s = s + 1;
        }
        assert(track_views(self.track_state@) =~= drained_states(states));
        assert forall|i: int| 0 <= i < self.track_state@.len() implies (#[trigger] self.track_state@[i])@.wf() by {
            assert(states[i].wf());
        }
        Ok(list)
    }
}

/// What reading a sequence gives: its instruments in real time, and its
/// resolution in ticks per beat, by which the times are to be divided to
/// give microseconds.
pub struct MidiData {
    pub resolution: u16,
    pub instruments: Vec<Instrument<RealTime>>,
}

/// `r` is what reading a sequence gives. A sequence that cannot be read is
/// refused with the cause for it; else one that does not count its ticks
/// per beat, and else one with an event that cannot be applied. Of any
/// other sequence the tracks behind the first are replayed in absolute
/// ticks, and their instruments are handed out in real time along the
/// tempo map of the first track: in the order of their tracks, within a
/// track of their channels, within a channel of their programs.
pub open spec fn is_reading_of(smf: SequenceView, r: Result<MidiData, Error>) -> bool {
    let tracks = with_absolute_ticks(smf).tracks;
    if !is_readable(smf) {
        r is Err && r->Err_0.kind == ErrorKind::Generic && r->Err_0.message@ == refusal(smf)
    } else if !(smf.header.timing is Metrical) {
        r is Err && r->Err_0.kind == ErrorKind::Generic && r->Err_0.message@ == non_metrical_cause()
    } else if !tracks_accepted(tracks, 1) {
        r is Err && is_replay_refusal(tracks, 1, r->Err_0)
    } else {
        let states = replayed_tracks(tracks, 1, tracks.len() as int);
        let ticks = instruments_of(states, states.len() as int);
        &&& r is Ok
        &&& smf.header.timing == Timing::Metrical(r->Ok_0.resolution)
        &&& r->Ok_0.instruments@.len() == ticks.len()
        &&& forall|i: int| 0 <= i < ticks.len() ==> is_real_time_of(
                tick_scales(tracks[0]),
                ticks[i],
                (#[trigger] r->Ok_0.instruments@[i])@,
            )
    }
}

/// Reads the instruments of a sequence, in real time.
pub fn read_sequence(smf: Sequence) -> (r: Result<MidiData, Error>)
    ensures
        is_reading_of(smf@, r),
{
    match MidiReader::new(smf) {
        Ok(reader) => {
            let mut reader = reader;
            match reader.resolution() {
                Ok(resolution) => match reader.build_instrument_data() {
                    Ok(instruments) => Ok(MidiData { resolution, instruments }),
                    Err(e) => Err(e),
                },
                Err(e) => Err(e),
            }
        },
        Err(e) => Err(e),
    }
}

} // verus!
