use vstd::prelude::*;

verus! {

/// A note name on the white keys (C major scale degrees).
#[derive(Debug, Clone, Copy, PartialEq, Eq, Hash, Structural)]
pub enum Solfa {
    C,
    D,
    E,
    F,
    G,
    A,
    B,
}

/// The degree of a solfa within the octave, counted on the staff (C = 0 ... B = 6).
pub open spec fn solfa_score_offset(s: Solfa) -> int {
    match s {
        Solfa::C => 0,
        Solfa::D => 1,
        Solfa::E => 2,
        Solfa::F => 3,
        Solfa::G => 4,
        Solfa::A => 5,
        Solfa::B => 6,
    }
}

/// The number of semitones of a solfa above C.
pub open spec fn solfa_pitch_offset(s: Solfa) -> int {
    match s {
        Solfa::C => 0,
        Solfa::D => 2,
        Solfa::E => 4,
        Solfa::F => 5,
        Solfa::G => 7,
        Solfa::A => 9,
        Solfa::B => 11,
    }
}

/// The solfa at staff degree `o`, with degrees below C clamped to C and
/// above B clamped to B.
pub open spec fn solfa_of_score_offset(o: int) -> Solfa {
    if o <= 0 {
        Solfa::C
    } else if o == 1 {
        Solfa::D
    } else if o == 2 {
        Solfa::E
    } else if o == 3 {
        Solfa::F
    } else if o == 4 {
        Solfa::G
    } else if o == 5 {
        Solfa::A
    } else {
        Solfa::B
    }
}

/// Every solfa is recovered from its own staff degree.
pub proof fn lemma_solfa_score_offset_roundtrip(s: Solfa)
    ensures
        solfa_of_score_offset(solfa_score_offset(s)) == s,
        0 <= solfa_score_offset(s) <= 6,
{
}

impl Solfa {
    /// The letter of the solfa.
    pub fn to_text(self) -> (r: &'static str)
        ensures
            r@ == match self {
                Solfa::C => "C"@,
                Solfa::D => "D"@,
                Solfa::E => "E"@,
                Solfa::F => "F"@,
                Solfa::G => "G"@,
                Solfa::A => "A"@,
                Solfa::B => "B"@,
            },
    {
        match self {
            Solfa::C => "C",
            Solfa::D => "D",
            Solfa::E => "E",
            Solfa::F => "F",
            Solfa::G => "G",
            Solfa::A => "A",
            Solfa::B => "B",
        }
    }

    /// All solfas in ascending order.
    pub const ALL: [Solfa; 7] = [Solfa::C, Solfa::D, Solfa::E, Solfa::F, Solfa::G, Solfa::A, Solfa::B];

    pub fn score_offset(self) -> (r: i32)
        ensures
            r == solfa_score_offset(self),
    {
        match self {
            Solfa::C => 0,
            Solfa::D => 1,
            Solfa::E => 2,
            Solfa::F => 3,
            Solfa::G => 4,
            Solfa::A => 5,
            Solfa::B => 6,
        }
    }

    pub fn pitch_offset(self) -> (r: i32)
        ensures
            r == solfa_pitch_offset(self),
    {
        match self {
            Solfa::C => 0,
            Solfa::D => 2,
            Solfa::E => 4,
            Solfa::F => 5,
            Solfa::G => 7,
            Solfa::A => 9,
            Solfa::B => 11,
        }
    }

    /// The solfa at the given staff degree; degrees outside 0..=6 are clamped.
    pub fn from_score_offset(offset: i32) -> (r: Solfa)
        ensures
            r == solfa_of_score_offset(offset as int),
    {
        if offset <= 0 {
            Solfa::C
        } else if offset == 1 {
            Solfa::D
        } else if offset == 2 {
            Solfa::E
        } else if offset == 3 {
            Solfa::F
        } else if offset == 4 {
            Solfa::G
        } else if offset == 5 {
            Solfa::A
        } else {
            Solfa::B
        }
    }

    /// Moves this solfa up by `rhs` staff degrees (`+=`).
    /// The result must not pass B; a result below C is clamped to C.
    pub fn add_assign(&mut self, rhs: i32)
        requires
            solfa_score_offset(*old(self)) + rhs <= 6,
        ensures
            *final(self) == solfa_of_score_offset(solfa_score_offset(*old(self)) + rhs),
    {
        let so = self.score_offset() + rhs;
        *self = Solfa::from_score_offset(so);
    }

    /// Moves this solfa down by `rhs` staff degrees (`-=`).
    /// The result must not pass C; a result above B is clamped to B.
    pub fn sub_assign(&mut self, rhs: i32)
        requires
            0 <= solfa_score_offset(*old(self)) - rhs <= i32::MAX,
        ensures
            *final(self) == solfa_of_score_offset(solfa_score_offset(*old(self)) - rhs),
    {
        let so = self.score_offset() - rhs;
        *self = Solfa::from_score_offset(so);
    }
}

} // verus!
