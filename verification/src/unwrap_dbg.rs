//! Unwrapping a value whose presence the caller has already established.

use vstd::prelude::*;

verus! {

/// Taking the value out of a container that is known to hold one. The caller
/// proves presence, so the call never fails at run time.
pub trait UnwrapDbg<T> {
    /// Whether a value is present.
    spec fn holds_value(&self) -> bool;

    /// The value that is present, where one is.
    spec fn held_value(&self) -> T;

    /// Hands out the value.
    fn unwrap_dbg(self) -> (r: T)
        requires
            self.holds_value(),
        ensures
            r == self.held_value(),
    ;
}

impl<T> UnwrapDbg<T> for Option<T> {
    open spec fn holds_value(&self) -> bool {
        self.is_some()
    }

    open spec fn held_value(&self) -> T {
        self->0
    }

    fn unwrap_dbg(self) -> (r: T) {
        self.unwrap()
    }
}

impl<T, E: core::fmt::Debug> UnwrapDbg<T> for Result<T, E> {
    open spec fn holds_value(&self) -> bool {
        self.is_ok()
    }

    open spec fn held_value(&self) -> T {
        self->Ok_0
    }

    fn unwrap_dbg(self) -> (r: T) {
        self.unwrap()
    }
}

} // verus!
