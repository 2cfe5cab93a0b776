use vstd::prelude::*;
use crate::numtext::decimal_digits;

verus! {

/// Lowest MIDI velocity.
pub const MIN_VALUE: u8 = 0;

/// Highest MIDI velocity.
pub const MAX_VALUE: u8 = 127;

/// MIDI velocity, 0 ..= 127: how hard a note is played.
#[derive(Clone, Copy, PartialEq, Eq, Debug, Hash, Structural)]
pub struct Velocity(u8);

impl View for Velocity {
    type V = int;

    closed spec fn view(&self) -> int {
        self.0 as int
    }
}

impl Velocity {
    #[verifier::type_invariant]
    closed spec fn inv(self) -> bool {
        self.0 <= MAX_VALUE
    }

    /// The velocity of the given value; values above 127 are clamped to 127.
    pub fn new(value: u8) -> (r: Velocity)
        ensures
            r@ == if MAX_VALUE < value { MAX_VALUE as int } else { value as int },
    {
        if MAX_VALUE < value {
            Velocity(MAX_VALUE)
        } else {
            Velocity(value)
        }
    }

    pub fn as_u8(self) -> (r: u8)
        ensures
            r == self@,
            r <= MAX_VALUE,
    {
        proof { use_type_invariant(&self); }
        self.0
    }

    /// The decimal text of this velocity.
    pub fn to_text(self) -> (r: String)
        ensures
            r@ == decimal_digits(self@ as nat),
    {
        crate::numtext::decimal_text(self.0 as u64)
    }
}

/// The lowest velocity, 0.
#[allow(non_snake_case)]
pub fn MIN() -> (r: Velocity)
    ensures
        r@ == 0,
{
    Velocity::new(MIN_VALUE)
}

/// The highest velocity, 127.
#[allow(non_snake_case)]
pub fn MAX() -> (r: Velocity)
    ensures
        r@ == 127,
{
    Velocity::new(MAX_VALUE)
}

impl Default for Velocity {
    fn default() -> (r: Velocity)
        ensures
            r@ == 64,
    {
        Velocity(64)
    }
}

} // verus!
