//! The state machine of one channel: pending note-ons, the current program
//! and the instruments in the making.

use std::collections::HashMap;
use vstd::prelude::*;
use vstd::std_specs::hash::*;

use crate::midi::pending::{
    pending_list, pending_list_mut, pending_lists, pending_new, pending_push,
    pending_remaining_capacity, PendingLists, PendingNote, PITCHES,
};
use crate::midi::time::{
    empty_instrument, instrument_views, ControlChange, ControlNo, ControlValue, Instrument,
    InstrumentView, MidiTime, Note, PitchBend, PitchBendValue, ProgramNo, TickTime, Velocity,
};

verus! {

broadcast use vstd::std_specs::hash::group_hash_axioms;

/// The state of a channel while the events of its track are replayed.
pub struct ChannelState {
    /// For each pitch the note-ons that wait for a note-off.
    pub active_notes: PendingLists,
    pub current_program: ProgramNo,
    /// The instrument that collects what comes before an instrument of the
    /// current program exists.
    pub straggler_notes: Option<Instrument<TickTime>>,
    /// The instruments in the making, by program.
    pub instruments: HashMap<ProgramNo, Instrument<TickTime>>,
}

/// A channel as a mathematical value.
pub struct ChannelView {
    pub pending: Seq<Seq<PendingNote>>,
    pub current_program: ProgramNo,
    pub straggler: Option<InstrumentView<TickTime>>,
    pub instruments: Map<ProgramNo, InstrumentView<TickTime>>,
}

/// The notes that a note-off at `time` closes: one for each pending note-on
/// that came at another tick, in the order in which they came.
pub open spec fn closed_notes(list: Seq<PendingNote>, key: u8, time: MidiTime) -> Seq<Note<TickTime>>
    decreases list.len(),
{
    if list.len() == 0 {
        Seq::empty()
    } else {
        let front = closed_notes(list.drop_last(), key, time);
        let (start, velocity) = list.last();
        if start != time {
            front.push(Note { pitch: key, velocity, start_time: start, end_time: time })
        } else {
            front
        }
    }
}

/// The note-ons that a note-off at `time` leaves pending: those that came
/// at that very tick.
pub open spec fn left_pending(list: Seq<PendingNote>, time: MidiTime) -> Seq<PendingNote>
    decreases list.len(),
{
    if list.len() == 0 {
        Seq::empty()
    } else {
        let front = left_pending(list.drop_last(), time);
        if list.last().0 != time {
            front
        } else {
            front.push(list.last())
        }
    }
}

impl ChannelView {
    /// The channel with an instrument for `program`: the one it has; else
    /// the straggler, which from then on is the instrument of that program;
    /// else a fresh one.
    pub open spec fn materialized(self, program: ProgramNo) -> ChannelView {
        if self.instruments.contains_key(program) {
            self
        } else {
            self.created(program)
        }
    }

    /// The channel after the straggler, or a fresh instrument where there
    /// is no straggler, has been made the instrument of `program`.
    pub open spec fn created(self, program: ProgramNo) -> ChannelView {
        let instrument = match self.straggler {
            Some(straggler) => InstrumentView { program, ..straggler },
            None => empty_instrument::<TickTime>(program),
        };
        ChannelView { straggler: None, instruments: self.instruments.insert(program, instrument), ..self }
    }

    /// The channel with an instrument to write to: the straggler if there
    /// is one; else the instrument of the current program if there is one;
    /// else a fresh straggler.
    pub open spec fn with_current(self) -> ChannelView {
        if self.straggler is Some || self.instruments.contains_key(self.current_program) {
            self
        } else {
            ChannelView { straggler: Some(empty_instrument::<TickTime>(0)), ..self }
        }
    }

    pub open spec fn program_change(self, program: ProgramNo) -> ChannelView {
        ChannelView { current_program: program, ..self }
    }

    pub open spec fn note_on(self, time: MidiTime, key: u8, vel: Velocity) -> ChannelView {
        ChannelView {
            pending: self.pending.update(key as int, self.pending[key as int].push((time, vel))),
            ..self
        }
    }

    /// The channel with notes added to the instrument that is written to:
    /// the straggler if there is one, else the instrument of the current
    /// program.
    pub open spec fn with_notes(self, notes: Seq<Note<TickTime>>) -> ChannelView {
        match self.straggler {
            Some(straggler) => ChannelView {
                straggler: Some(InstrumentView { notes: straggler.notes + notes, ..straggler }),
                ..self
            },
            None => {
                let instrument = self.instruments[self.current_program];
                ChannelView {
                    instruments: self.instruments.insert(
                        self.current_program,
                        InstrumentView { notes: instrument.notes + notes, ..instrument },
                    ),
                    ..self
                }
            },
        }
    }

    /// Where note-ons are pending for the pitch, the instrument of the
    /// current program is materialized, and the instrument that is then
    /// written to takes the notes that the note-off closes; the note-ons of
    /// the note-off's own tick stay pending.
    pub open spec fn note_off(self, time: MidiTime, key: u8) -> ChannelView {
        let list = self.pending[key as int];
        if list.len() == 0 {
            self
        } else {
            ChannelView {
                pending: self.pending.update(key as int, left_pending(list, time)),
                ..self.materialized(self.current_program).with_notes(closed_notes(list, key, time))
            }
        }
    }

    pub open spec fn pitch_bend(self, bend: PitchBendValue, time: MidiTime) -> ChannelView {
        let ready = self.with_current();
        let entry = PitchBend { bend, time };
        match ready.straggler {
            Some(straggler) => ChannelView {
                straggler: Some(InstrumentView { pitch_bends: straggler.pitch_bends.push(entry), ..straggler }),
                ..ready
            },
            None => {
                let instrument = ready.instruments[self.current_program];
                ChannelView {
                    instruments: ready.instruments.insert(
                        self.current_program,
                        InstrumentView { pitch_bends: instrument.pitch_bends.push(entry), ..instrument },
                    ),
                    ..ready
                }
            },
        }
    }

    pub open spec fn control_change(self, number: ControlNo, value: ControlValue, time: MidiTime) -> ChannelView {
        let ready = self.with_current();
        let entry = ControlChange { number, value, time };
        match ready.straggler {
            Some(straggler) => ChannelView {
                straggler: Some(
                    InstrumentView { control_changes: straggler.control_changes.push(entry), ..straggler },
                ),
                ..ready
            },
            None => {
                let instrument = ready.instruments[self.current_program];
                ChannelView {
                    instruments: ready.instruments.insert(
                        self.current_program,
                        InstrumentView { control_changes: instrument.control_changes.push(entry), ..instrument },
                    ),
                    ..ready
                }
            },
        }
    }

    /// The channel with an empty pending list for each pitch that had
    /// none.
    pub open spec fn initialized(self) -> ChannelView {
        ChannelView {
            pending: Seq::new(
                PITCHES as nat,
                |key: int|
                    if key < self.pending.len() {
                        self.pending[key]
                    } else {
                        Seq::empty()
                    },
            ),
            ..self
        }
    }

    /// Each instrument is held under its own program.
    pub open spec fn wf(self) -> bool {
        forall|program: ProgramNo| #[trigger]
            self.instruments.contains_key(program) ==> self.instruments[program].program == program
    }

    /// The channel has a pending list for each pitch.
    pub open spec fn is_ready(self) -> bool {
        self.wf() && self.pending.len() == PITCHES
    }
}

/// The instruments of a map as mathematical values.
pub open spec fn instruments_by_program(instruments: Map<ProgramNo, Instrument<TickTime>>) -> Map<
    ProgramNo,
    InstrumentView<TickTime>,
> {
    Map::new(|program: ProgramNo| instruments.contains_key(program), |program: ProgramNo| instruments[program]@)
}

/// The instruments of the programs below `upto`, in the order of their
/// programs.
pub open spec fn instruments_in_order(instruments: Map<ProgramNo, InstrumentView<TickTime>>, upto: int) -> Seq<
    InstrumentView<TickTime>,
>
    decreases upto,
{
    if upto <= 0 {
        Seq::empty()
    } else {
        let front = instruments_in_order(instruments, upto - 1);
        let program = (upto - 1) as ProgramNo;
        if instruments.contains_key(program) {
            front.push(instruments[program])
        } else {
            front
        }
    }
}

/// A channel at the start of its track: a pending list for each pitch and
/// nothing on it, program 0, no instrument.
pub open spec fn initial_channel() -> ChannelView {
    ChannelView {
        pending: Seq::new(PITCHES as nat, |key: int| Seq::<PendingNote>::empty()),
        current_program: 0,
        straggler: None,
        instruments: Map::empty(),
    }
}

/// The programs from `first` on.
pub open spec fn programs_from(first: int) -> Set<ProgramNo> {
    Set::new(|program: ProgramNo| program >= first)
}

/// The straggler as a mathematical value.
pub open spec fn straggler_view(straggler: Option<Instrument<TickTime>>) -> Option<InstrumentView<TickTime>> {
    match straggler {
        Some(instrument) => Some(instrument@),
        None => None,
    }
}

impl View for ChannelState {
    type V = ChannelView;

    open spec fn view(&self) -> ChannelView {
        ChannelView {
            pending: pending_lists(self.active_notes),
            current_program: self.current_program,
            straggler: straggler_view(self.straggler_notes),
            instruments: instruments_by_program(self.instruments@),
        }
    }
}

/// Every note that a note-off closes lasts: none starts at the tick at
/// which it ends. Every note-on that it leaves pending came at its own
/// tick. Between them they account for every pending note-on.
pub proof fn lemma_note_off_splits(list: Seq<PendingNote>, key: u8, time: MidiTime)
    ensures
        forall|i: int| 0 <= i < closed_notes(list, key, time).len() ==> {
            &&& (#[trigger] closed_notes(list, key, time)[i]).start_time != time
            &&& closed_notes(list, key, time)[i].end_time == time
            &&& closed_notes(list, key, time)[i].pitch == key
        },
        forall|i: int| 0 <= i < left_pending(list, time).len() ==> (#[trigger] left_pending(list, time)[i]).0 == time,
        closed_notes(list, key, time).len() + left_pending(list, time).len() == list.len(),
    decreases list.len(),
{
    if list.len() > 0 {
        lemma_note_off_splits(list.drop_last(), key, time);
    }
}

/// A note-on and a note-off at the same tick for the same pitch are not
/// paired. The note-off closes what it would have closed without the
/// note-on, so no note of no length comes of it, and the note-on is still
/// pending behind whatever else the note-off left.
pub proof fn lemma_same_tick_not_paired(channel: ChannelView, time: MidiTime, key: u8, vel: Velocity)
    requires
        key < channel.pending.len(),
    ensures
        ({
            let list = channel.pending[key as int];
            let after = channel.note_on(time, key, vel).note_off(time, key);
            &&& closed_notes(list.push((time, vel)), key, time) == closed_notes(list, key, time)
            &&& after.pending[key as int] == left_pending(list, time).push((time, vel))
            &&& after.instruments == channel.materialized(channel.current_program).with_notes(
                closed_notes(list, key, time),
            ).instruments
            &&& after.straggler == channel.materialized(channel.current_program).with_notes(
                closed_notes(list, key, time),
            ).straggler
        }),
{
    let list = channel.pending[key as int];
    assert(list.push((time, vel)).drop_last() =~= list);
}

/// A note-on that is pending last for its pitch is closed by a note-off at
/// any other tick: the note-off's last note is the one from the tick of the
/// note-on to its own, with the velocity of the note-on.
pub proof fn lemma_other_tick_closes(list: Seq<PendingNote>, key: u8, start: MidiTime, vel: Velocity, end: MidiTime)
    requires
        start != end,
    ensures
        closed_notes(list.push((start, vel)), key, end) == closed_notes(list, key, end).push(
            Note { pitch: key, velocity: vel, start_time: start, end_time: end },
        ),
        left_pending(list.push((start, vel)), end) == left_pending(list, end),
{
    assert(list.push((start, vel)).drop_last() =~= list);
}

/// What a straggler has collected goes to the first instrument that is
/// materialized after it, under the program of that instrument, and the
/// channel is then without a straggler. No other program gains or loses an
/// instrument by it.
pub proof fn lemma_straggler_promoted(channel: ChannelView, program: ProgramNo)
    requires
        channel.wf(),
        channel.straggler is Some,
        !channel.instruments.contains_key(program),
    ensures
        ({
            let straggler = channel.straggler->0;
            let after = channel.materialized(program);
            &&& after.wf()
            &&& after.straggler is None
            &&& after.instruments.contains_key(program)
            &&& after.instruments[program].program == program
            &&& after.instruments[program].notes == straggler.notes
            &&& after.instruments[program].pitch_bends == straggler.pitch_bends
            &&& after.instruments[program].control_changes == straggler.control_changes
            &&& after.instruments.remove(program) == channel.instruments
        }),
{
    let after = channel.materialized(program);
    assert(after.instruments.remove(program) =~= channel.instruments);
}

/// On a channel without instruments, whatever bends and control changes
/// come first are collected by a straggler; after a change to `program`
/// and a note of that program they belong, with the note, to the
/// instrument of `program`, and to no other.
pub proof fn lemma_early_events_follow_program(
    channel: ChannelView,
    bend: PitchBendValue,
    program: ProgramNo,
    key: u8,
    vel: Velocity,
    start: MidiTime,
    end: MidiTime,
)
    requires
        channel.is_ready(),
        channel.straggler is None,
        channel.instruments == Map::<ProgramNo, InstrumentView<TickTime>>::empty(),
        key < PITCHES,
        channel.pending[key as int].len() == 0,
        start != end,
    ensures
        ({
            let after = channel.pitch_bend(bend, start).program_change(program).note_on(start, key, vel).note_off(
                end,
                key,
            );
            &&& after.straggler is None
            &&& after.instruments.dom() == set![program]
            &&& after.instruments[program].program == program
            &&& after.instruments[program].pitch_bends == seq![PitchBend { bend, time: start }]
            &&& after.instruments[program].notes == seq![
                Note::<TickTime> { pitch: key, velocity: vel, start_time: start, end_time: end },
            ]
        }),
{
    let bent = channel.pitch_bend(bend, start);
    assert(bent.straggler == Some(
        InstrumentView {
            pitch_bends: Seq::<PitchBend>::empty().push(PitchBend { bend, time: start }),
            ..empty_instrument::<TickTime>(0)
        },
    ));
    let on = bent.program_change(program).note_on(start, key, vel);
    let list = on.pending[key as int];
    assert(list =~= Seq::<PendingNote>::empty().push((start, vel)));
    lemma_other_tick_closes(Seq::<PendingNote>::empty(), key, start, vel, end);
    let after = on.note_off(end, key);
    assert(after.instruments.dom() =~= set![program]);
    assert(after.instruments[program].pitch_bends =~= seq![PitchBend { bend, time: start }]);
    assert(after.instruments[program].notes =~= seq![
        Note::<TickTime> { pitch: key, velocity: vel, start_time: start, end_time: end },
    ]);
}

impl Default for ChannelState {
    /// A channel without pending lists: `init` gives it one for each pitch.
    fn default() -> (r: ChannelState)
        ensures
            r@.wf(),
            r@.pending.len() == 0,
            r@.current_program == 0,
            r@.straggler is None,
            r@.instruments == Map::<ProgramNo, InstrumentView<TickTime>>::empty(),
    {
        let r = ChannelState {
            active_notes: pending_new(),
            current_program: 0,
            straggler_notes: None,
            instruments: HashMap::new(),
        };
        assert(r@.instruments =~= Map::<ProgramNo, InstrumentView<TickTime>>::empty());
        r
    }
}

impl ChannelState {
    /// Gives the channel an empty pending list for each pitch that has none
    /// yet.
    pub fn init(&mut self)
        ensures
            final(self)@ == old(self)@.initialized(),
            old(self)@.pending.len() <= PITCHES,
    {
        let mut left: usize = pending_remaining_capacity(&self.active_notes);
        while left > 0
            invariant
                left == PITCHES - self@.pending.len(),
                old(self)@.pending.len() <= self@.pending.len(),
                forall|key: int| 0 <= key < old(self)@.pending.len() ==> self@.pending[key] == old(self)@.pending[key],
                forall|key: int| old(self)@.pending.len() <= key < self@.pending.len() ==> self@.pending[key].len() == 0,
                self@.current_program == old(self)@.current_program,
                self@.straggler == old(self)@.straggler,
                self@.instruments == old(self)@.instruments,
            decreases left,
        {
            pending_push(&mut self.active_notes, Vec::new());
            left = pending_remaining_capacity(&self.active_notes);
        }
        assert forall|key: int| 0 <= key < PITCHES implies self@.pending[key] == old(self)@.initialized().pending[key] by {
            if key >= old(self)@.pending.len() {
                assert(self@.pending[key] =~= Seq::empty());
            }
        }
        assert(self@.pending =~= old(self)@.initialized().pending);
    }

    /// A channel at the start of its track.
    pub fn new() -> (r: ChannelState)
        ensures
            r@ == initial_channel(),
    {
        let mut r = ChannelState::default();
        r.init();
        assert(r@.pending =~= initial_channel().pending);
        r
    }

    pub fn program_change(&mut self, program: ProgramNo)
        ensures
            final(self)@ == old(self)@.program_change(program),
    {
        self.current_program = program;
    }

    /// Puts a note-on on the pending list of its pitch.
    pub fn note_on(&mut self, time: MidiTime, key: u8, vel: Velocity)
        requires
            key < old(self)@.pending.len(),
        ensures
            final(self)@ == old(self)@.note_on(time, key, vel),
    {
        let list = pending_list_mut(&mut self.active_notes, key as usize);
        list.push((time, vel));
    }

    /// Makes the straggler the instrument of `program`, or a fresh
    /// instrument where there is no straggler.
    pub fn create_instrument(&mut self, program: ProgramNo)
        requires
            old(self)@.wf(),
        ensures
            final(self)@ == old(self)@.created(program),
            final(self)@.wf(),
    {
        let instrument = match self.straggler_notes.take() {
            Some(straggler) => {
                let mut straggler = straggler;
                straggler.program = program;
                straggler
            },
            None => Instrument::new(program),
        };
        self.instruments.insert(program, instrument);
        assert(self@.instruments =~= old(self)@.created(program).instruments);
    }

    /// Sees to it that `program` has an instrument: the one it has, or else
    /// the straggler, or else a fresh one.
    pub fn get_or_create_instrument(&mut self, program: ProgramNo)
        requires
            old(self)@.wf(),
        ensures
            final(self)@ == old(self)@.materialized(program),
            final(self)@.wf(),
            final(self)@.instruments.contains_key(program),
    {
        if !self.instruments.contains_key(&program) {
            self.create_instrument(program);
        }
    }

    /// Sees to it that there is an instrument to write to: the straggler,
    /// or else the instrument of the current program, or else a fresh
    /// straggler.
    pub fn current_instrument(&mut self)
        requires
            old(self)@.wf(),
        ensures
            final(self)@ == old(self)@.with_current(),
            final(self)@.wf(),
            final(self)@.straggler is Some || final(self)@.instruments.contains_key(final(self)@.current_program),
    {
        if self.straggler_notes.is_none() && !self.instruments.contains_key(&self.current_program) {
            self.straggler_notes = Some(Instrument::new(0));
        }
    }

    /// Adds notes to the instrument that is written to: the straggler if
    /// there is one, else the instrument of the current program, which
    /// must then be there.
    fn add_notes(&mut self, notes: Vec<Note<TickTime>>)
        requires
            old(self)@.wf(),
            old(self)@.straggler is Some || old(self)@.instruments.contains_key(old(self)@.current_program),
        ensures
            final(self)@ == old(self)@.with_notes(notes@),
            final(self)@.wf(),
    {
        let ghost added = notes@;
        let mut notes = notes;
        match self.straggler_notes.take() {
            Some(straggler) => {
                let mut straggler = straggler;
                straggler.notes.append(&mut notes);
                self.straggler_notes = Some(straggler);
            },
            None => {
                let program = self.current_program;
                let removed = self.instruments.remove(&program);
                let mut instrument = removed.unwrap();
                instrument.notes.append(&mut notes);
                self.instruments.insert(program, instrument);
                assert(self@.instruments =~= old(self)@.with_notes(added).instruments);
            },
        }
    }

    /// Closes the note-ons that are pending for a pitch and came at another
    /// tick than `time`.
    pub fn note_off(&mut self, time: MidiTime, key: u8)
        requires
            old(self)@.wf(),
            key < old(self)@.pending.len(),
        ensures
            final(self)@ == old(self)@.note_off(time, key),
            final(self)@.wf(),
    {
        if pending_list(&self.active_notes, key as usize).len() > 0 {
            let program = self.current_program;
            self.get_or_create_instrument(program);
            let list = pending_list_mut(&mut self.active_notes, key as usize);
            let ghost pending = list@;
            let mut closed: Vec<Note<TickTime>> = Vec::new();
            let mut left: Vec<PendingNote> = Vec::new();
            let mut i: usize = 0;
            while i < list.len()
                invariant
                    i <= list.len(),
                    list@ == pending,
                    left@ == left_pending(pending.take(i as int), time),
                    closed@ == closed_notes(pending.take(i as int), key, time),
                decreases list.len() - i,
            {
                proof {
                    assert(pending.take(i + 1).drop_last() =~= pending.take(i as int));
                    assert(pending.take(i + 1).last() == pending[i as int]);
                }
                let (start, velocity) = list[i];
                if start != time {
                    closed.push(Note { pitch: key, velocity, start_time: start, end_time: time });
                } else {
                    left.push((start, velocity));
                }
                i = i + 1;
            }
            assert(pending.take(pending.len() as int) =~= pending);
            *list = left;
            self.add_notes(closed);
        }
    }

    /// Adds a pitch bend to the instrument to write to.
    pub fn pitch_bend(&mut self, bend: PitchBendValue, time: MidiTime)
        requires
            old(self)@.wf(),
        ensures
            final(self)@ == old(self)@.pitch_bend(bend, time),
            final(self)@.wf(),
    {
        self.current_instrument();
        let entry = PitchBend { bend, time };
        match self.straggler_notes.take() {
            Some(straggler) => {
                let mut straggler = straggler;
                straggler.pitch_bends.push(entry);
                self.straggler_notes = Some(straggler);
            },
            None => {
                let program = self.current_program;
                let removed = self.instruments.remove(&program);
                let mut instrument = removed.unwrap();
                instrument.pitch_bends.push(entry);
                self.instruments.insert(program, instrument);
                assert(self@.instruments =~= old(self)@.pitch_bend(bend, time).instruments);
            },
        }
    }

    /// Adds a control change to the instrument to write to.
    pub fn control_change(&mut self, number: ControlNo, value: ControlValue, time: MidiTime)
        requires
            old(self)@.wf(),
        ensures
            final(self)@ == old(self)@.control_change(number, value, time),
            final(self)@.wf(),
    {
        self.current_instrument();
        let entry = ControlChange { number, value, time };
        match self.straggler_notes.take() {
            Some(straggler) => {
                let mut straggler = straggler;
                straggler.control_changes.push(entry);
                self.straggler_notes = Some(straggler);
            },
            None => {
                let program = self.current_program;
                let removed = self.instruments.remove(&program);
                let mut instrument = removed.unwrap();
                instrument.control_changes.push(entry);
                self.instruments.insert(program, instrument);
                assert(self@.instruments =~= old(self)@.control_change(number, value, time).instruments);
            },
        }
    }

    /// Whether the channel has an instrument of `program`.
    pub fn has_instrument(&self, program: ProgramNo) -> (r: bool)
        ensures
            r == self@.instruments.contains_key(program),
    {
        self.instruments.contains_key(&program)
    }

    /// Whether events wait in a straggler that no program has claimed.
    pub fn has_straggler(&self) -> (r: bool)
        ensures
            r == (self@.straggler is Some),
    {
        self.straggler_notes.is_some()
    }

    /// Takes the straggler out of the channel.
    pub fn take_straggler(&mut self) -> (r: Option<Instrument<TickTime>>)
        ensures
            straggler_view(r) == old(self)@.straggler,
            final(self)@ == (ChannelView { straggler: None, ..old(self)@ }),
    {
        self.straggler_notes.take()
    }

    /// Takes the instruments out of the channel, in the order of their
    /// programs.
    pub fn take_instruments(&mut self) -> (r: Vec<Instrument<TickTime>>)
        ensures
            instrument_views(r@) == instruments_in_order(old(self)@.instruments, 256),
            final(self)@ == (ChannelView {
                instruments: Map::<ProgramNo, InstrumentView<TickTime>>::empty(),
                ..old(self)@
            }),
    {
        let mut taken: Vec<Instrument<TickTime>> = Vec::new();
        let ghost held = self.instruments@;
        let mut next: u16 = 0;
        assert(self.instruments@ =~= held.restrict(programs_from(0)));
        while next < 256
            invariant
                next <= 256,
                held == old(self).instruments@,
                instrument_views(taken@) == instruments_in_order(instruments_by_program(held), next as int),
                self.instruments@ == held.restrict(programs_from(next as int)),
                self@.pending == old(self)@.pending,
                self@.current_program == old(self)@.current_program,
                self@.straggler == old(self)@.straggler,
            decreases 256 - next,
        {
            let program: ProgramNo = next as ProgramNo;
            let ghost before = instrument_views(taken@);
            assert((next + 1 - 1) as ProgramNo == program);
            match self.instruments.remove(&program) {
                Some(instrument) => {
                    assert(held.contains_key(program) && held[program] == instrument);
                    taken.push(instrument);
                    assert(instrument_views(taken@) =~= before.push(instrument@));
                },
                None => {
                    assert(!held.contains_key(program));
                },
            }
            assert(self.instruments@ =~= held.restrict(programs_from(next + 1)));
            next = next + 1;
        }
        assert(self@.instruments =~= Map::<ProgramNo, InstrumentView<TickTime>>::empty());
        taken
    }

    /// The number of note-ons that are pending for a pitch.
    pub fn pending_count(&self, key: u8) -> (count: usize)
        requires
            key < self@.pending.len(),
        ensures
            count == self@.pending[key as int].len(),
    {
        pending_list(&self.active_notes, key as usize).len()
    }
}

} // verus!
