//! The tempo map: from which tick on which tempo holds.

use std::collections::VecDeque;
use vstd::prelude::*;

use crate::err::{Error, ErrorKind};
use crate::midi::event::{is_chronological, MetaMessage, Sequence, Timing, Track, TrackEvent, TrackEventKind};

verus! {

/// A breakpoint of the tempo map: a tick and the tempo, in microseconds per
/// beat, that holds from that tick until the next breakpoint. At a resolution
/// of `r` ticks per beat a tempo of `t` lasts `t / (1_000_000 * r)` seconds
/// per tick, so at one resolution two tempos are the same scale exactly when
/// they are the same number.
pub type TickScale = (u32, u32);

/// The tempo that holds where the sequence sets none: 120 beats per minute.
pub const DEFAULT_TEMPO: u32 = 500_000;

/// The tempo change that an event carries, if it is one.
pub open spec fn tempo_change_of(event: TrackEvent) -> Option<TickScale> {
    match event.kind {
        TrackEventKind::Meta(MetaMessage::Tempo(tempo)) => Some((event.delta, tempo)),
        _ => None,
    }
}

/// The tempo changes of a track, in the order of its events.
pub open spec fn tempo_changes(track: Seq<TrackEvent>) -> Seq<TickScale>
    decreases track.len(),
{
    if track.len() == 0 {
        Seq::empty()
    } else {
        let front = tempo_changes(track.drop_last());
        match tempo_change_of(track.last()) {
            Some(change) => front.push(change),
            None => front,
        }
    }
}

/// The changes without those that repeat the tempo of the change kept last
/// before them.
pub open spec fn collapse(changes: Seq<TickScale>) -> Seq<TickScale>
    decreases changes.len(),
{
    if changes.len() == 0 {
        Seq::empty()
    } else {
        let front = collapse(changes.drop_last());
        if front.len() > 0 && front.last().1 == changes.last().1 {
            front
        } else {
            front.push(changes.last())
        }
    }
}

/// The breakpoints with the default tempo put in front at tick 0, unless
/// they start at tick 0 themselves.
pub open spec fn with_initial_scale(scales: Seq<TickScale>) -> Seq<TickScale> {
    if scales.len() == 0 || scales[0].0 > 0 {
        seq![(0u32, DEFAULT_TEMPO)] + scales
    } else {
        scales
    }
}

/// The tempo map of a track.
pub open spec fn tick_scales(track: Seq<TrackEvent>) -> Seq<TickScale> {
    with_initial_scale(collapse(tempo_changes(track)))
}

/// No breakpoint lies before the one in front of it.
pub open spec fn scales_ordered(scales: Seq<TickScale>) -> bool {
    forall|i: int, j: int| 0 <= i <= j < scales.len() ==> scales[i].0 <= scales[j].0
}

/// No breakpoint repeats the tempo of the one in front of it.
pub open spec fn no_repeated_scale(scales: Seq<TickScale>) -> bool {
    forall|i: int| 0 < i < scales.len() ==> scales[i - 1].1 != #[trigger] scales[i].1
}

/// A tempo map that the converter can walk: it has a breakpoint, and its
/// breakpoints are in order.
pub open spec fn is_tempo_map(scales: Seq<TickScale>) -> bool {
    scales.len() > 0 && scales_ordered(scales)
}

pub fn as_tempo_change(event: &TrackEvent) -> (r: Option<TickScale>)
    ensures
        r == tempo_change_of(*event),
{
    match &event.kind {
        TrackEventKind::Meta(MetaMessage::Tempo(tempo)) => Some((event.delta, *tempo)),
        _ => None,
    }
}

/// Every tempo change of a track is that of one of its events.
pub proof fn lemma_tempo_changes_from_track(track: Seq<TrackEvent>, i: int)
    requires
        0 <= i < tempo_changes(track).len(),
    ensures
        exists|k: int| 0 <= k < track.len() && tempo_change_of(#[trigger] track[k]) == Some(tempo_changes(track)[i]),
    decreases track.len(),
{
    let front_track = track.drop_last();
    if i < tempo_changes(front_track).len() {
        lemma_tempo_changes_from_track(front_track, i);
        let k = choose|k: int|
            0 <= k < front_track.len() && tempo_change_of(#[trigger] front_track[k]) == Some(
                tempo_changes(front_track)[i],
            );
        assert(track[k] == front_track[k]);
    } else {
        assert(tempo_change_of(track[track.len() - 1]) == Some(tempo_changes(track)[i]));
    }
}

/// The tempo changes of a chronological track are in order.
pub proof fn lemma_tempo_changes_ordered(track: Seq<TrackEvent>)
    requires
        is_chronological(track),
    ensures
        scales_ordered(tempo_changes(track)),
    decreases track.len(),
{
    if track.len() > 0 {
        let front_track = track.drop_last();
        assert(is_chronological(front_track)) by {
            assert forall|i: int, j: int| 0 <= i <= j < front_track.len() implies front_track[i].delta
                <= front_track[j].delta by {
                assert(front_track[i] == track[i] && front_track[j] == track[j]);
            }
        }
        lemma_tempo_changes_ordered(front_track);
        let front = tempo_changes(front_track);
        let all = tempo_changes(track);
        assert forall|i: int, j: int| 0 <= i <= j < all.len() implies all[i].0 <= all[j].0 by {
            if j >= front.len() && i < front.len() {
                lemma_tempo_changes_from_track(front_track, i);
                let k = choose|k: int|
                    0 <= k < front_track.len() && tempo_change_of(#[trigger] front_track[k]) == Some(front[i]);
                assert(front_track[k] == track[k]);
                assert(track[k].delta <= track[track.len() - 1].delta);
            }
        }
    }
}

/// What `collapse` keeps is in the order of what it was given, and starts
/// with the same change.
pub proof fn lemma_collapse_keeps_order(changes: Seq<TickScale>)
    requires
        scales_ordered(changes),
    ensures
        scales_ordered(collapse(changes)),
        collapse(changes).len() <= changes.len(),
        changes.len() > 0 ==> collapse(changes).len() > 0 && collapse(changes)[0] == changes[0]
            && collapse(changes).last().0 <= changes.last().0,
    decreases changes.len(),
{
    if changes.len() > 0 {
        let shorter = changes.drop_last();
        assert(scales_ordered(shorter)) by {
            assert forall|i: int, j: int| 0 <= i <= j < shorter.len() implies shorter[i].0 <= shorter[j].0 by {
                assert(shorter[i] == changes[i] && shorter[j] == changes[j]);
            }
        }
        lemma_collapse_keeps_order(shorter);
        let front = collapse(shorter);
        let all = collapse(changes);
        if shorter.len() > 0 {
            assert(shorter.last() == changes[changes.len() - 2]);
            assert(shorter[0] == changes[0]);
        }
        assert forall|i: int, j: int| 0 <= i <= j < all.len() implies all[i].0 <= all[j].0 by {
            if j >= front.len() && i < front.len() {
                assert(front[i].0 <= front.last().0);
            }
        }
    }
}

/// After `collapse` no breakpoint repeats the tempo of the one in front of
/// it.
pub proof fn lemma_collapse_no_repeats(changes: Seq<TickScale>)
    ensures
        no_repeated_scale(collapse(changes)),
    decreases changes.len(),
{
    if changes.len() > 0 {
        lemma_collapse_no_repeats(changes.drop_last());
    }
}

/// `collapse` leaves alone a list in which no tempo is repeated.
pub proof fn lemma_collapse_fixes_collapsed(scales: Seq<TickScale>)
    requires
        no_repeated_scale(scales),
    ensures
        collapse(scales) == scales,
    decreases scales.len(),
{
    if scales.len() > 0 {
        let shorter = scales.drop_last();
        assert(no_repeated_scale(shorter)) by {
            assert forall|i: int| 0 < i < shorter.len() implies shorter[i - 1].1 != #[trigger] shorter[i].1 by {
                assert(shorter[i - 1] == scales[i - 1] && shorter[i] == scales[i]);
            }
        }
        lemma_collapse_fixes_collapsed(shorter);
        if shorter.len() > 0 {
            assert(shorter.last() == scales[scales.len() - 2]);
            assert(scales[scales.len() - 2].1 != scales[scales.len() - 1].1);
        }
        assert(collapse(scales) =~= scales);
    }
}

/// Collapsing twice is collapsing once.
pub proof fn lemma_collapse_idempotent(changes: Seq<TickScale>)
    ensures
        collapse(collapse(changes)) == collapse(changes),
{
    lemma_collapse_no_repeats(changes);
    lemma_collapse_fixes_collapsed(collapse(changes));
}

/// The tempo changes of a track that holds nothing but tempo changes are
/// those of its events, one for one.
pub proof fn lemma_tempo_changes_of_tempo_track(track: Seq<TrackEvent>, changes: Seq<TickScale>)
    requires
        track.len() == changes.len(),
        forall|i: int| 0 <= i < track.len() ==> tempo_change_of(#[trigger] track[i]) == Some(changes[i]),
    ensures
        tempo_changes(track) == changes,
    decreases track.len(),
{
    if track.len() > 0 {
        lemma_tempo_changes_of_tempo_track(track.drop_last(), changes.drop_last());
        assert(tempo_changes(track) =~= changes);
    } else {
        assert(tempo_changes(track) =~= changes);
    }
}

/// A tempo map in which no tempo is repeated is its own tempo map: built
/// again from a track that holds its breakpoints as tempo changes, it comes
/// out as it is.
pub proof fn lemma_tick_scales_idempotent(track: Seq<TrackEvent>, again: Seq<TrackEvent>)
    requires
        no_repeated_scale(tick_scales(track)),
        again.len() == tick_scales(track).len(),
        forall|i: int| 0 <= i < again.len() ==> tempo_change_of(#[trigger] again[i]) == Some(tick_scales(track)[i]),
    ensures
        tick_scales(again) == tick_scales(track),
{
    lemma_tick_scales_no_repeats(track);
    lemma_tempo_changes_of_tempo_track(again, tick_scales(track));
    lemma_collapse_fixes_collapsed(tick_scales(track));
}

/// The tempo map of a track starts at tick 0. Past the breakpoint that was
/// put in front, if one was, no breakpoint repeats the tempo of the one in
/// front of it; and none at all does where the track's first tempo change
/// lies at tick 0 or sets another tempo than the default.
pub proof fn lemma_tick_scales_no_repeats(track: Seq<TrackEvent>)
    ensures
        tick_scales(track).len() > 0,
        tick_scales(track)[0].0 == 0,
        forall|i: int| 1 < i < tick_scales(track).len() ==> tick_scales(track)[i - 1].1 != #[trigger] tick_scales(track)[i].1,
        tempo_changes(track).len() == 0 || tempo_changes(track)[0].0 == 0 || tempo_changes(track)[0].1
            != DEFAULT_TEMPO ==> no_repeated_scale(tick_scales(track)),
{
    let changes = tempo_changes(track);
    let kept = collapse(changes);
    lemma_collapse_no_repeats(changes);
    lemma_collapse_first(changes);
    let all = tick_scales(track);
    if kept.len() == 0 || kept[0].0 > 0 {
        assert forall|i: int| 1 < i < all.len() implies all[i - 1].1 != #[trigger] all[i].1 by {
            assert(all[i] == kept[i - 1]);
            assert(all[i - 1] == kept[i - 2]);
        }
        if changes.len() == 0 || changes[0].1 != DEFAULT_TEMPO {
            assert forall|i: int| 0 < i < all.len() implies all[i - 1].1 != #[trigger] all[i].1 by {
                if i == 1 {
                    assert(all[1] == kept[0]);
                }
            }
        }
    }
}

/// `collapse` keeps the first change, and keeps nothing of no changes.
pub proof fn lemma_collapse_first(changes: Seq<TickScale>)
    ensures
        changes.len() == 0 ==> collapse(changes).len() == 0,
        changes.len() > 0 ==> collapse(changes).len() > 0 && collapse(changes)[0] == changes[0],
    decreases changes.len(),
{
    if changes.len() > 0 {
        let shorter = changes.drop_last();
        lemma_collapse_first(shorter);
        if shorter.len() > 0 {
            assert(shorter[0] == changes[0]);
        }
    }
}

/// The tempo map of a chronological track is one that the converter can
/// walk.
pub proof fn lemma_tick_scales_is_tempo_map(track: Seq<TrackEvent>)
    requires
        is_chronological(track),
    ensures
        is_tempo_map(tick_scales(track)),
{
    lemma_tempo_changes_ordered(track);
    lemma_collapse_keeps_order(tempo_changes(track));
    let kept = collapse(tempo_changes(track));
    let all = tick_scales(track);
    if kept.len() == 0 || kept[0].0 > 0 {
        assert forall|i: int, j: int| 0 <= i <= j < all.len() implies all[i].0 <= all[j].0 by {
            if i > 0 {
                assert(all[i] == kept[i - 1] && all[j] == kept[j - 1]);
            }
        }
    }
}

/// Builds the tempo map of a track whose events carry absolute ticks: its
/// tempo changes in order, without those that repeat the tempo kept last,
/// behind the default tempo at tick 0 unless the first of them lies at
/// tick 0.
pub fn generate_tick_scales(track: &Track) -> (scales: VecDeque<TickScale>)
    ensures
        scales@ == tick_scales(track@),
        scales@.len() > 0,
        scales@[0].0 == 0,
        is_chronological(track@) ==> is_tempo_map(scales@),
{
    let mut scales: VecDeque<TickScale> = VecDeque::new();
    let mut i: usize = 0;
    while i < track.len()
        invariant
            i <= track.len(),
            scales@ == collapse(tempo_changes(track@.take(i as int))),
        decreases track.len() - i,
    {
        proof {
            assert(track@.take(i + 1).drop_last() =~= track@.take(i as int));
            assert(track@.take(i + 1).last() == track@[i as int]);
        }
        match as_tempo_change(&track[i]) {
            Some(change) => {
                proof {
                    let front = tempo_changes(track@.take(i as int));
                    assert(tempo_changes(track@.take(i + 1)) == front.push(change));
                    assert(front.push(change).drop_last() =~= front);
                }
                let n: usize = scales.len();
                if n == 0 || scales[n - 1].1 != change.1 {
                    scales.push_back(change);
                }
            },
            None => {},
        }
        i = i + 1;
    }
    proof {
        assert(track@.take(track@.len() as int) =~= track@);
        lemma_tick_scales_no_repeats(track@);
        if is_chronological(track@) {
            lemma_tick_scales_is_tempo_map(track@);
        }
    }
    if scales.len() == 0 || scales[0].0 > 0 {
        scales.push_front((0u32, DEFAULT_TEMPO));
    }
    scales
}

/// The cause given where a sequence does not count its ticks per beat.
pub open spec fn non_metrical_cause() -> Seq<char> {
    "Non metrical timing not supported."@
}

/// The resolution of a sequence in ticks per beat. A sequence timed in
/// frames per second is refused.
pub fn get_timing(smf: &Sequence) -> (r: Result<u16, Error>)
    ensures
        match smf.header.timing {
            Timing::Metrical(ticks_per_beat) => r == Ok::<u16, Error>(ticks_per_beat),
            Timing::Timecode(_, _) => r is Err && r->Err_0.kind == ErrorKind::Generic
                && r->Err_0.message@ == non_metrical_cause(),
        },
{
    match smf.header.timing {
        Timing::Metrical(ticks_per_beat) => Ok(ticks_per_beat),
        Timing::Timecode(_, _) => Err(Error::generic("Non metrical timing not supported.")),
    }
}

} // verus!
