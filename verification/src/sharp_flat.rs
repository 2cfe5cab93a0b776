use vstd::prelude::*;

verus! {

/// Accidentals that modify a note's pitch. `Null` means that the key
/// signature decides.
#[derive(Debug, PartialEq, Copy, Clone, Eq, Hash, Structural)]
pub enum SharpFlat {
    Sharp,
    DoubleSharp,
    Flat,
    DoubleFlat,
    Natural,
    Null,
}

/// The number of semitones an accidental adds to the pitch.
pub open spec fn sharp_flat_offset(s: SharpFlat) -> int {
    match s {
        SharpFlat::Sharp => 1,
        SharpFlat::DoubleSharp => 2,
        SharpFlat::Flat => -1,
        SharpFlat::DoubleFlat => -2,
        SharpFlat::Natural => 0,
        SharpFlat::Null => 0,
    }
}

impl SharpFlat {
    pub fn offset(self) -> (r: i32)
        ensures
            r == sharp_flat_offset(self),
    {
        match self {
            SharpFlat::Sharp => 1,
            SharpFlat::DoubleSharp => 2,
            SharpFlat::Flat => -1,
            SharpFlat::DoubleFlat => -2,
            SharpFlat::Natural => 0,
            SharpFlat::Null => 0,
        }
    }
}

} // verus!
