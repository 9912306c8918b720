//! Looking into an optional value to change it in place.

use vstd::prelude::*;

verus! {

/// A value that may hold another, which a function can change in place.
pub trait InspectMutExt: Sized {
    type Inner;

    /// The value inside, if there is one.
    spec fn inner(&self) -> Option<Self::Inner>;

    /// Hands the value inside, if there is one, to `f` to change it, and
    /// gives back what then holds the changed value. `f` must take the
    /// value inside.
    fn inspect_mut<F: FnOnce(&mut Self::Inner)>(self, f: F) -> (r: Self)
        requires
            forall|slot: &mut Self::Inner| self.inner() == Some(mut_ref_current(slot)) ==> call_requires(f, (slot,)),
        ensures
            match self.inner() {
                Some(before) => exists|slot: &mut Self::Inner|
                    mut_ref_current(slot) == before && #[trigger] call_ensures(f, (slot,), ()) && r.inner() == Some(
                        mut_ref_future(slot),
                    ),
                None => r.inner() is None,
            },
    ;
}

impl<T> InspectMutExt for Option<T> {
    type Inner = T;

    open spec fn inner(&self) -> Option<T> {
        *self
    }

    fn inspect_mut<F: FnOnce(&mut T)>(self, f: F) -> (r: Self) {
        match self {
            Some(inner) => {
                let mut inner = inner;
                f(&mut inner);
                Some(inner)
            },
            None => None,
        }
    }
}

} // verus!
