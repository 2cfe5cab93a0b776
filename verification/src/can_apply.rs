use vstd::prelude::*;

verus! {

/// A rate or adjustment that can be applied to a value.
pub trait CanApply<T>: Sized {
    /// The value after the adjustment.
    spec fn applied(self, value: T) -> T;

    fn apply(self, value: T) -> (r: T)
        ensures
            r == self.applied(value),
    ;
}

} // verus!
