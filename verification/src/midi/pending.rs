//! The pending note-ons of a channel: one list for each pitch, held in a
//! fixed-capacity vector.

use vstd::prelude::*;

use crate::midi::time::{MidiTime, Velocity};

verus! {

/// A note-on that waits for its note-off: the tick at which it came and its
/// velocity.
pub type PendingNote = (MidiTime, Velocity);

/// The number of pitches, and so of pending lists, of a channel.
pub const PITCHES: usize = 128;

/// The pending lists of a channel.
pub type PendingLists = arrayvec::ArrayVec<Vec<PendingNote>, 128>;

/// `arrayvec::ArrayVec`: a vector of a fixed capacity. What it holds is
/// read and changed through the functions below.
#[verifier::external_type_specification]
#[verifier::external_body]
#[verifier::reject_recursive_types(T)]
pub struct ExArrayVec<T, const CAP: usize>(arrayvec::ArrayVec<T, CAP>);

/// What the pending lists hold: for each pitch that has a list, its
/// note-ons in the order in which they came.
pub uninterp spec fn pending_lists(lists: PendingLists) -> Seq<Seq<PendingNote>>;

/// `ArrayVec::new`: a vector that holds nothing.
#[verifier::external_body]
pub(crate) fn pending_new() -> (lists: PendingLists)
    ensures
        pending_lists(lists).len() == 0,
{
    arrayvec::ArrayVec::new()
}

/// `ArrayVec::remaining_capacity`: the capacity, which is the number of
/// pitches, less the number of lists held.
#[verifier::external_body]
pub(crate) fn pending_remaining_capacity(lists: &PendingLists) -> (left: usize)
    ensures
        left == PITCHES - pending_lists(*lists).len(),
{
    lists.remaining_capacity()
}

/// `ArrayVec::push`: puts `list` behind the lists held. The vector must not
/// be full.
#[verifier::external_body]
pub(crate) fn pending_push(lists: &mut PendingLists, list: Vec<PendingNote>)
    requires
        pending_lists(*old(lists)).len() < PITCHES,
    ensures
        pending_lists(*final(lists)) == pending_lists(*old(lists)).push(list@),
{
    lists.push(list)
}

/// `ArrayVec::as_slice`, indexed: the list held at `key`.
#[verifier::external_body]
pub(crate) fn pending_list(lists: &PendingLists, key: usize) -> (list: &Vec<PendingNote>)
    requires
        key < pending_lists(*lists).len(),
    ensures
        list@ == pending_lists(*lists)[key as int],
{
    &lists.as_slice()[key]
}

/// `ArrayVec::as_mut_slice`, indexed: the list held at `key`, to be changed
/// in place. The other lists stay as they are.
#[verifier::external_body]
pub(crate) fn pending_list_mut(lists: &mut PendingLists, key: usize) -> (list: &mut Vec<PendingNote>)
    requires
        key < pending_lists(*old(lists)).len(),
    ensures
        list@ == pending_lists(*old(lists))[key as int],
        pending_lists(*final(lists)) == pending_lists(*old(lists)).update(key as int, final(list)@),
{
    &mut lists.as_mut_slice()[key]
}

} // verus!
