//! Time units and the records that carry them.

use vstd::prelude::*;

verus! {

pub type ProgramNo = u8;

pub type ChannelNo = u8;

pub type ControlNo = u8;

pub type ControlValue = u8;

pub type Pitch = u8;

pub type PitchBendValue = u16;

pub type Velocity = u8;

pub type MidiTime = u32;

/// Exact real time, counted in units of one microsecond times one tick per
/// beat: dividing by the sequence's resolution gives microseconds.
pub type TickMicros = i128;

/// Abstracts over the units of time in which the start and the end of a
/// note can be expressed.
pub trait TimeUnit {
    /// The underlying type that stores a point in time.
    type Repr: std::fmt::Debug + Clone;
}

/// Time as real time.
#[derive(Debug, PartialEq, Eq, Clone, Copy)]
pub struct RealTime;

impl TimeUnit for RealTime {
    type Repr = TickMicros;
}

/// Time as MIDI ticks.
#[derive(Debug, PartialEq, Eq, Clone, Copy)]
pub struct TickTime;

impl TimeUnit for TickTime {
    type Repr = MidiTime;
}

/// A note of a given pitch and velocity, sounding from `start_time` to
/// `end_time`.
#[derive(PartialEq, Eq, Debug, Clone)]
pub struct Note<T: TimeUnit> {
    pub pitch: Pitch,
    pub velocity: Velocity,
    pub start_time: T::Repr,
    pub end_time: T::Repr,
}

#[derive(Debug, Clone, Copy, PartialEq, Eq)]
pub struct PitchBend {
    pub bend: PitchBendValue,
    pub time: MidiTime,
}

#[derive(Debug, Clone, Copy, PartialEq, Eq)]
pub struct ControlChange {
    pub number: ControlNo,
    pub value: ControlValue,
    pub time: MidiTime,
}

/// The events of one program on one channel of one track.
#[derive(Debug, Clone)]
pub struct Instrument<T: TimeUnit> {
    pub program: ProgramNo,
    pub name: String,
    pub notes: Vec<Note<T>>,
    pub pitch_bends: Vec<PitchBend>,
    pub control_changes: Vec<ControlChange>,
}

/// An instrument as a mathematical value.
pub struct InstrumentView<T: TimeUnit> {
    pub program: ProgramNo,
    pub name: Seq<char>,
    pub notes: Seq<Note<T>>,
    pub pitch_bends: Seq<PitchBend>,
    pub control_changes: Seq<ControlChange>,
}

impl<T: TimeUnit> View for Instrument<T> {
    type V = InstrumentView<T>;

    open spec fn view(&self) -> InstrumentView<T> {
        InstrumentView {
            program: self.program,
            name: self.name@,
            notes: self.notes@,
            pitch_bends: self.pitch_bends@,
            control_changes: self.control_changes@,
        }
    }
}

/// An instrument of the given program that holds nothing.
pub open spec fn empty_instrument<T: TimeUnit>(program: ProgramNo) -> InstrumentView<T> {
    InstrumentView {
        program,
        name: Seq::empty(),
        notes: Seq::empty(),
        pitch_bends: Seq::empty(),
        control_changes: Seq::empty(),
    }
}

/// The instruments of a list as mathematical values.
pub open spec fn instrument_views<T: TimeUnit>(instruments: Seq<Instrument<T>>) -> Seq<InstrumentView<T>> {
    Seq::new(instruments.len(), |i: int| instruments[i]@)
}

/// The place in a list of `len` items that an index names: the index
/// itself, or counted back from the end where it is negative; none where
/// that lies outside the list.
pub open spec fn resolved_index(index: int, len: int) -> Option<int> {
    if 0 <= index < len {
        Some(index)
    } else if -len <= index < 0 {
        Some(len + index)
    } else {
        None
    }
}

/// The place in a list of `len` items that an index names, if any.
pub fn resolve_index(index: isize, len: usize) -> (place: Option<usize>)
    ensures
        match resolved_index(index as int, len as int) {
            Some(at) => place == Some(at as usize),
            None => place is None,
        },
{
    if index >= 0 {
        let at: usize = index as usize;
        if at < len {
            Some(at)
        } else {
            None
        }
    } else {
        let back: usize = (-(index + 1)) as usize;
        if back < len {
            Some(len - 1 - back)
        } else {
            None
        }
    }
}

impl<T: TimeUnit> Instrument<T> {
    pub fn new(program: ProgramNo) -> (r: Self)
        ensures
            r@ == empty_instrument::<T>(program),
    {
        let r = Instrument {
            program,
            name: String::new(),
            notes: Vec::new(),
            pitch_bends: Vec::new(),
            control_changes: Vec::new(),
        };
        assert(r@.name =~= Seq::empty());
        assert(r@.notes =~= Seq::empty());
        assert(r@.pitch_bends =~= Seq::empty());
        assert(r@.control_changes =~= Seq::empty());
        r
    }

    /// The note that an index names: counted from the first note, or back
    /// from the last where the index is negative.
    pub fn note_at(&self, index: isize) -> (note: Option<&Note<T>>)
        ensures
            match resolved_index(index as int, self@.notes.len() as int) {
                Some(at) => note == Some(&self@.notes[at]),
                None => note is None,
            },
    {
        match resolve_index(index, self.notes.len()) {
            Some(at) => Some(&self.notes[at]),
            None => None,
        }
    }

    /// Whether the instrument is the drum kit.
    pub fn is_drum(&self) -> (r: bool)
        ensures
            r == (self@.program == 9),
    {
        self.program == 9
    }
}

} // verus!
