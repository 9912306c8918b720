//! From ticks to real time, along the tempo map.

use vstd::prelude::*;

use crate::midi::tempo::{is_tempo_map, TickScale};
use crate::midi::time::{Instrument, InstrumentView, Note, RealTime, TickMicros, TickTime};

verus! {

/// The tick from which segment `k` of the tempo map is measured: tick 0 for
/// the first segment, the segment's own breakpoint for every other.
pub open spec fn anchor_tick(scales: Seq<TickScale>, k: int) -> int {
    if k <= 0 {
        0
    } else {
        scales[k].0 as int
    }
}

/// The real time that has passed at the anchor tick of segment `k`.
pub open spec fn anchor_time(scales: Seq<TickScale>, k: int) -> int
    decreases k,
{
    if k <= 0 {
        0
    } else {
        anchor_time(scales, k - 1) + (scales[k].0 - anchor_tick(scales, k - 1)) * scales[k - 1].1
    }
}

/// The real time of a tick as segment `k` measures it.
pub open spec fn time_in_segment(scales: Seq<TickScale>, k: int, tick: int) -> int {
    anchor_time(scales, k) + (tick - anchor_tick(scales, k)) * scales[k].1
}

/// Where a scan that stands at segment `k` comes to rest for a tick: it
/// moves on for as long as the tick lies past the next breakpoint.
pub open spec fn advance(scales: Seq<TickScale>, k: int, tick: int) -> int
    decreases scales.len() - k,
{
    if 0 <= k && k + 1 < scales.len() && tick > scales[k + 1].0 {
        advance(scales, k + 1, tick)
    } else {
        k
    }
}

/// The segment at which the scan stands after the first `n` notes.
pub open spec fn cursor_after(scales: Seq<TickScale>, notes: Seq<Note<TickTime>>, n: int) -> int
    decreases n,
{
    if n <= 0 {
        0
    } else {
        advance(scales, cursor_after(scales, notes, n - 1), notes[n - 1].start_time as int)
    }
}

/// The real start of note `i`: its start tick in the segment at which the
/// scan stands once it has come to the note.
pub open spec fn real_start(scales: Seq<TickScale>, notes: Seq<Note<TickTime>>, i: int) -> int {
    time_in_segment(scales, cursor_after(scales, notes, i + 1), notes[i].start_time as int)
}

/// The real end of note `i`, measured in the segment of its start.
pub open spec fn real_end(scales: Seq<TickScale>, notes: Seq<Note<TickTime>>, i: int) -> int {
    time_in_segment(scales, cursor_after(scales, notes, i + 1), notes[i].end_time as int)
}

/// `timed` is `ticks` in real time: the same program, name, pitch bends and
/// control changes, and note for note the same pitch and velocity with the
/// real start and the real end of the note.
pub open spec fn is_real_time_of(
    scales: Seq<TickScale>,
    ticks: InstrumentView<TickTime>,
    timed: InstrumentView<RealTime>,
) -> bool {
    &&& timed.program == ticks.program
    &&& timed.name == ticks.name
    &&& timed.pitch_bends == ticks.pitch_bends
    &&& timed.control_changes == ticks.control_changes
    &&& timed.notes.len() == ticks.notes.len()
    &&& forall|i: int| 0 <= i < ticks.notes.len() ==> {
            &&& (#[trigger] timed.notes[i]).pitch == ticks.notes[i].pitch
            &&& timed.notes[i].velocity == ticks.notes[i].velocity
            &&& timed.notes[i].start_time == real_start(scales, ticks.notes, i)
            &&& timed.notes[i].end_time == real_end(scales, ticks.notes, i)
        }
}

/// An instrument in ticks is a given instrument in real time at most
/// once: `is_real_time_of` leaves no choice.
pub proof fn lemma_real_time_is_unique(
    scales: Seq<TickScale>,
    ticks: InstrumentView<TickTime>,
    one: InstrumentView<RealTime>,
    other: InstrumentView<RealTime>,
)
    requires
        is_real_time_of(scales, ticks, one),
        is_real_time_of(scales, ticks, other),
    ensures
        one == other,
{
    assert(one.notes =~= other.notes);
}

/// The segment of the tempo map to which a tick belongs.
pub open spec fn segment_of(scales: Seq<TickScale>, tick: int) -> int {
    advance(scales, 0, tick)
}

/// The real time of a tick on the tempo map.
pub open spec fn tempo_time(scales: Seq<TickScale>, tick: int) -> int {
    time_in_segment(scales, segment_of(scales, tick), tick)
}

/// No note starts before the one in front of it.
pub open spec fn starts_ordered(notes: Seq<Note<TickTime>>) -> bool {
    forall|i: int, j: int| 0 <= i <= j < notes.len() ==> notes[i].start_time <= notes[j].start_time
}

/// A scan comes to rest at a segment of the map, not before the one it
/// stood at, with the tick not past the next breakpoint; and where it has
/// moved, the tick lies past the breakpoint of the segment it rests at.
pub proof fn lemma_advance_rests(scales: Seq<TickScale>, k: int, tick: int)
    requires
        0 <= k < scales.len(),
    ensures
        k <= advance(scales, k, tick) < scales.len(),
        advance(scales, k, tick) + 1 < scales.len() ==> tick <= scales[advance(scales, k, tick) + 1].0,
        advance(scales, k, tick) > k ==> tick > scales[advance(scales, k, tick)].0,
    decreases scales.len() - k,
{
    if k + 1 < scales.len() && tick > scales[k + 1].0 {
        lemma_advance_rests(scales, k + 1, tick);
    }
}

/// A scan that starts anywhere up to the segment of a tick comes to rest
/// at that segment.
pub proof fn lemma_advance_from(scales: Seq<TickScale>, k: int, tick: int)
    requires
        0 <= k <= segment_of(scales, tick),
    ensures
        advance(scales, k, tick) == segment_of(scales, tick),
    decreases k,
{
    if k > 0 {
        lemma_advance_from(scales, k - 1, tick);
    }
}

/// A later tick belongs to no earlier segment.
pub proof fn lemma_advance_monotone(scales: Seq<TickScale>, k: int, early: int, late: int)
    requires
        0 <= k < scales.len(),
        early <= late,
    ensures
        advance(scales, k, early) <= advance(scales, k, late),
    decreases scales.len() - k,
{
    if k + 1 < scales.len() && early > scales[k + 1].0 {
        lemma_advance_monotone(scales, k + 1, early, late);
    } else {
        lemma_advance_rests(scales, k, late);
    }
}

/// On a tempo map the real time at the anchor of a segment is not negative
/// and not more than the anchor tick at the longest tempo, and it does not
/// fall from one segment to a later one.
pub proof fn lemma_anchor_time_bounds(scales: Seq<TickScale>, k: int)
    requires
        is_tempo_map(scales),
        0 <= k < scales.len(),
    ensures
        0 <= anchor_time(scales, k) <= anchor_tick(scales, k) * 0xFFFF_FFFF,
        forall|j: int| 0 <= j <= k ==> anchor_time(scales, j) <= anchor_time(scales, k),
    decreases k,
{
    if k > 0 {
        lemma_anchor_time_bounds(scales, k - 1);
        let gap = scales[k].0 - anchor_tick(scales, k - 1);
        let tempo = scales[k - 1].1 as int;
        assert(gap >= 0) by {
            if k - 1 > 0 {
                assert(scales[k - 1].0 <= scales[k].0);
            }
        }
        assert(0 <= gap * tempo <= gap * 0xFFFF_FFFF) by (nonlinear_arith)
            requires
                gap >= 0,
                0 <= tempo <= 0xFFFF_FFFF,
        ;
        assert(anchor_tick(scales, k - 1) * 0xFFFF_FFFF + gap * 0xFFFF_FFFF == scales[k].0 * 0xFFFF_FFFF)
            by (nonlinear_arith)
            requires
                gap == scales[k].0 - anchor_tick(scales, k - 1),
        ;
    }
}

/// Within the reach of 32-bit ticks, the real time of a tick in a segment
/// of a tempo map fits well into 128 bits.
pub proof fn lemma_time_in_segment_bounds(scales: Seq<TickScale>, k: int, tick: int)
    requires
        is_tempo_map(scales),
        0 <= k < scales.len(),
        0 <= tick <= 0xFFFF_FFFF,
    ensures
        -0x1_0000_0000_0000_0000 < time_in_segment(scales, k, tick) < 0x2_0000_0000_0000_0000,
        -0x1_0000_0000_0000_0000 < (tick - anchor_tick(scales, k)) * scales[k].1 < 0x1_0000_0000_0000_0000,
        0 <= anchor_time(scales, k) < 0x1_0000_0000_0000_0000,
{
    lemma_anchor_time_bounds(scales, k);
    let at = anchor_tick(scales, k);
    let tempo = scales[k].1 as int;
    let d = tick - at;
    assert(0 <= at <= 0xFFFF_FFFF);
    assert(at * 0xFFFF_FFFF < 0x1_0000_0000_0000_0000) by (nonlinear_arith)
        requires
            0 <= at <= 0xFFFF_FFFF,
    ;
    assert(-0x1_0000_0000_0000_0000 < d * tempo < 0x1_0000_0000_0000_0000) by (nonlinear_arith)
        requires
            -0xFFFF_FFFF <= d <= 0xFFFF_FFFF,
            0 <= tempo <= 0xFFFF_FFFF,
    ;
}

/// Where no note starts before the one in front of it, the scan stands,
/// once it has come to a note, at the segment to which the note's start
/// belongs: each start is measured on the tempo map itself.
pub proof fn lemma_ordered_notes_in_own_segment(scales: Seq<TickScale>, notes: Seq<Note<TickTime>>, i: int)
    requires
        scales.len() > 0,
        starts_ordered(notes),
        0 <= i < notes.len(),
    ensures
        cursor_after(scales, notes, i + 1) == segment_of(scales, notes[i].start_time as int),
        real_start(scales, notes, i) == tempo_time(scales, notes[i].start_time as int),
    decreases i,
{
    let tick = notes[i].start_time as int;
    if i > 0 {
        let before = notes[i - 1].start_time as int;
        assert(before <= tick);
        lemma_ordered_notes_in_own_segment(scales, notes, i - 1);
        assert(cursor_after(scales, notes, i) == segment_of(scales, before));
        lemma_advance_rests(scales, 0, before);
        lemma_advance_monotone(scales, 0, before, tick);
    } else {
        lemma_advance_rests(scales, 0, tick);
    }
    lemma_advance_from(scales, cursor_after(scales, notes, i), tick);
}

/// Real time does not run backwards along a tempo map.
pub proof fn lemma_tempo_time_monotone(scales: Seq<TickScale>, early: int, late: int)
    requires
        is_tempo_map(scales),
        0 <= early <= late,
    ensures
        tempo_time(scales, early) <= tempo_time(scales, late),
{
    let k1 = segment_of(scales, early);
    let k2 = segment_of(scales, late);
    lemma_advance_rests(scales, 0, early);
    lemma_advance_rests(scales, 0, late);
    lemma_advance_monotone(scales, 0, early, late);
    if k1 == k2 {
        let tempo = scales[k1].1 as int;
        let at = anchor_tick(scales, k1);
        assert((early - at) * tempo <= (late - at) * tempo) by (nonlinear_arith)
            requires
                early <= late,
                tempo >= 0,
        ;
    } else {
        let next = scales[k1 + 1].0 as int;
        let tempo1 = scales[k1].1 as int;
        let at1 = anchor_tick(scales, k1);
        assert((early - at1) * tempo1 <= (next - at1) * tempo1) by (nonlinear_arith)
            requires
                early <= next,
                tempo1 >= 0,
        ;
        assert(time_in_segment(scales, k1, early) <= anchor_time(scales, k1 + 1));
        lemma_anchor_time_bounds(scales, k2);
        assert(anchor_time(scales, k1 + 1) <= anchor_time(scales, k2));
        let tempo2 = scales[k2].1 as int;
        let at2 = anchor_tick(scales, k2);
        assert((late - at2) * tempo2 >= 0) by (nonlinear_arith)
            requires
                late >= at2,
                tempo2 >= 0,
        ;
    }
}

/// Notes that are fed in the order of their start ticks come out in the
/// order of their real starts.
pub proof fn lemma_real_starts_monotone(scales: Seq<TickScale>, notes: Seq<Note<TickTime>>, i: int, j: int)
    requires
        is_tempo_map(scales),
        starts_ordered(notes),
        0 <= i <= j < notes.len(),
    ensures
        real_start(scales, notes, i) <= real_start(scales, notes, j),
{
    lemma_ordered_notes_in_own_segment(scales, notes, i);
    lemma_ordered_notes_in_own_segment(scales, notes, j);
    lemma_tempo_time_monotone(scales, notes[i].start_time as int, notes[j].start_time as int);
}

/// The real time of a tick as the segment with the given anchor and tempo
/// measures it.
fn rescale(tick: u32, at_tick: u32, at_time: TickMicros, tempo: u32) -> (r: TickMicros)
    requires
        0 <= at_time < 0x1_0000_0000_0000_0000,
    ensures
        r == at_time + (tick - at_tick) * tempo,
{
    let d: i128 = tick as i128 - at_tick as i128;
    assert(-0x1_0000_0000_0000_0000 < d * (tempo as i128) < 0x1_0000_0000_0000_0000) by (nonlinear_arith)
        requires
            -0xFFFF_FFFF <= d <= 0xFFFF_FFFF,
            0 <= tempo <= 0xFFFF_FFFF,
    ;
    at_time + d * (tempo as i128)
}

impl Instrument<TickTime> {
    /// Converts an instrument with time measured in ticks into one with
    /// time measured in real time. One scan runs forward over the tempo
    /// map: each note moves it on to the segment of the note's start,
    /// never back, and the note's start and end are both measured in the
    /// segment at which it then stands. Pitch bends and control changes
    /// keep their ticks.
    ///
    /// The notes are meant to come in the order of their starts; each
    /// start is then measured on the tempo map itself, and no real start
    /// lies before the one in front of it. A note that starts before one
    /// in front of it is measured in the segment that the scan has reached
    /// for the later start: its real start is then not its time on the
    /// tempo map, it can lie before the real time at which that segment
    /// starts, and it can be negative. The same holds of an end that lies
    /// before the segment of its start.
    pub fn to_real_time(self, scales: &[TickScale]) -> (r: Instrument<RealTime>)
        requires
            is_tempo_map(scales@),
        ensures
            is_real_time_of(scales@, self@, r@),
    {
        let mut k: usize = 0;
        let mut at_tick: u32 = 0;
        let mut at_time: TickMicros = 0;
        let mut notes: Vec<Note<RealTime>> = Vec::new();
        let mut i: usize = 0;
        while i < self.notes.len()
            invariant
                is_tempo_map(scales@),
                i <= self.notes.len(),
                k < scales.len(),
                k == cursor_after(scales@, self.notes@, i as int),
                at_tick == anchor_tick(scales@, k as int),
                at_time == anchor_time(scales@, k as int),
                notes@.len() == i,
                forall|m: int| 0 <= m < i ==> {
                    &&& (#[trigger] notes@[m]).pitch == self.notes@[m].pitch
                    &&& notes@[m].velocity == self.notes@[m].velocity
                    &&& notes@[m].start_time == real_start(scales@, self.notes@, m)
                    &&& notes@[m].end_time == real_end(scales@, self.notes@, m)
                },
            decreases self.notes.len() - i,
        {
            let start: u32 = self.notes[i].start_time;
            let end: u32 = self.notes[i].end_time;
            let ghost k0 = k as int;
            while k + 1 < scales.len() && start > scales[k + 1].0
                invariant
                    is_tempo_map(scales@),
                    k < scales.len(),
                    advance(scales@, k as int, start as int) == advance(scales@, k0, start as int),
                    at_tick == anchor_tick(scales@, k as int),
                    at_time == anchor_time(scales@, k as int),
                decreases scales.len() - k,
            {
                proof {
                    lemma_time_in_segment_bounds(scales@, k as int, scales@[k + 1].0 as int);
                    lemma_anchor_time_bounds(scales@, k + 1);
                }
                at_time = rescale(scales[k + 1].0, at_tick, at_time, scales[k].1);
                at_tick = scales[k + 1].0;
                k = k + 1;
            }
            proof {
                lemma_time_in_segment_bounds(scales@, k as int, start as int);
                lemma_time_in_segment_bounds(scales@, k as int, end as int);
            }
            let tempo: u32 = scales[k].1;
            let note = Note::<RealTime> {
                pitch: self.notes[i].pitch,
                velocity: self.notes[i].velocity,
                start_time: rescale(start, at_tick, at_time, tempo),
                end_time: rescale(end, at_tick, at_time, tempo),
            };
            notes.push(note);
            i = i + 1;
        }
        Instrument {
            program: self.program,
            name: self.name,
            notes,
            pitch_bends: self.pitch_bends,
            control_changes: self.control_changes,
        }
    }
}

} // verus!
