use vstd::prelude::*;

verus! {

/// MIDI channel number, 0 ..= 15.
#[derive(Debug, Clone, Copy, PartialEq, Eq, Hash, Default, Structural)]
pub struct Channel(u8);

impl View for Channel {
    type V = int;

    closed spec fn view(&self) -> int {
        self.0 as int
    }
}

impl Channel {
    #[verifier::type_invariant]
    closed spec fn inv(self) -> bool {
        self.0 < 16
    }

    /// The channel with the given number, which must be below 16.
    pub fn new(value: u8) -> (r: Channel)
        requires
            value < 16,
        ensures
            r@ == value,
    {
        Channel(value)
    }

    pub fn as_u8(self) -> (r: u8)
        ensures
            r == self@,
            r < 16,
    {
        proof { use_type_invariant(&self); }
        self.0
    }
}

} // verus!
