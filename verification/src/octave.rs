use vstd::prelude::*;

verus! {

/// Error of octave construction: the value is outside -2..=8.
#[derive(Debug, Clone, Copy, PartialEq, Eq)]
pub enum OctaveError {
    InvalidValue(i32),
}

/// Musical octave, -2 to 8. Octave 3 holds middle C (MIDI note 60).
#[derive(Debug, Copy, Clone, PartialEq, Eq, Hash, Structural)]
pub enum Octave {
    OctM2,
    OctM1,
    Oct0,
    Oct1,
    Oct2,
    Oct3,
    Oct4,
    Oct5,
    Oct6,
    Oct7,
    Oct8,
}

/// Highest octave.
pub const MAX: Octave = Octave::Oct8;

/// Lowest octave.
pub const MIN: Octave = Octave::OctM2;

/// The numeric octave number, -2 ..= 8.
pub open spec fn octave_value(o: Octave) -> int {
    match o {
        Octave::OctM2 => -2,
        Octave::OctM1 => -1,
        Octave::Oct0 => 0,
        Octave::Oct1 => 1,
        Octave::Oct2 => 2,
        Octave::Oct3 => 3,
        Octave::Oct4 => 4,
        Octave::Oct5 => 5,
        Octave::Oct6 => 6,
        Octave::Oct7 => 7,
        Octave::Oct8 => 8,
    }
}

/// The index of an octave counted from the lowest one (0 ..= 10).
pub open spec fn octave_offset(o: Octave) -> int {
    octave_value(o) + 2
}

/// The octave whose index from the lowest octave is `idx`, for `0 <= idx <= 10`.
pub open spec fn octave_of_offset(idx: int) -> Octave
    recommends
        0 <= idx <= 10,
{
    if idx <= 0 {
        Octave::OctM2
    } else if idx == 1 {
        Octave::OctM1
    } else if idx == 2 {
        Octave::Oct0
    } else if idx == 3 {
        Octave::Oct1
    } else if idx == 4 {
        Octave::Oct2
    } else if idx == 5 {
        Octave::Oct3
    } else if idx == 6 {
        Octave::Oct4
    } else if idx == 7 {
        Octave::Oct5
    } else if idx == 8 {
        Octave::Oct6
    } else if idx == 9 {
        Octave::Oct7
    } else {
        Octave::Oct8
    }
}

/// An octave and its index from the lowest octave determine each other.
pub proof fn lemma_octave_offset_roundtrip(o: Octave, idx: int)
    ensures
        octave_of_offset(octave_offset(o)) == o,
        0 <= octave_offset(o) <= 10,
        0 <= idx <= 10 ==> octave_offset(octave_of_offset(idx)) == idx,
{
}

impl Octave {
    /// Bias between octave numbers and octave indexes.
    pub const BIAS_VALUE: i32 = 2;

    /// Lowest octave.
    pub const MIN_VALUE: Octave = Octave::OctM2;

    /// Highest octave.
    pub const MAX_VALUE: Octave = Octave::Oct8;

    /// The octave with the given number. Fails for numbers outside -2 ..= 8,
    /// with the index the number gives.
    pub fn value_of(value: i32) -> (r: Result<Octave, OctaveError>)
        requires
            value <= i32::MAX - 2,
        ensures
            -2 <= value <= 8 ==> r == Ok::<Octave, OctaveError>(octave_of_offset(value + 2)),
            !(-2 <= value <= 8) ==> r == Err::<Octave, OctaveError>(OctaveError::InvalidValue((value + 2) as i32)),
    {
        Self::from_score_offset(value + Self::BIAS_VALUE)
    }

    /// The octave with the given index from the lowest one. Fails for indexes
    /// outside 0 ..= 10.
    pub fn from_score_offset(idx: i32) -> (r: Result<Octave, OctaveError>)
        ensures
            0 <= idx <= 10 ==> r == Ok::<Octave, OctaveError>(octave_of_offset(idx as int)),
            !(0 <= idx <= 10) ==> r == Err::<Octave, OctaveError>(OctaveError::InvalidValue(idx)),
    {
        if idx < 0 || 10 < idx {
            Err(OctaveError::InvalidValue(idx))
        } else {
            Ok(Self::of_index(idx))
        }
    }

    fn of_index(idx: i32) -> (r: Octave)
        requires
            0 <= idx <= 10,
        ensures
            r == octave_of_offset(idx as int),
    {
        if idx == 0 {
            Octave::OctM2
        } else if idx == 1 {
            Octave::OctM1
        } else if idx == 2 {
            Octave::Oct0
        } else if idx == 3 {
            Octave::Oct1
        } else if idx == 4 {
            Octave::Oct2
        } else if idx == 5 {
            Octave::Oct3
        } else if idx == 6 {
            Octave::Oct4
        } else if idx == 7 {
            Octave::Oct5
        } else if idx == 8 {
            Octave::Oct6
        } else if idx == 9 {
            Octave::Oct7
        } else {
            Octave::Oct8
        }
    }

    /// The index of this octave counted from the lowest one.
    pub fn offset(self) -> (r: i32)
        ensures
            r == octave_offset(self),
    {
        self.value() + Self::BIAS_VALUE
    }

    /// The octave number, -2 ..= 8.
    pub fn value(self) -> (r: i32)
        ensures
            r == octave_value(self),
    {
        match self {
            Octave::OctM2 => -2,
            Octave::OctM1 => -1,
            Octave::Oct0 => 0,
            Octave::Oct1 => 1,
            Octave::Oct2 => 2,
            Octave::Oct3 => 3,
            Octave::Oct4 => 4,
            Octave::Oct5 => 5,
            Octave::Oct6 => 6,
            Octave::Oct7 => 7,
            Octave::Oct8 => 8,
        }
    }

    /// Raises this octave by `rhs` (`+=`); the result must be a valid octave.
    pub fn add_assign(&mut self, rhs: i32)
        requires
            -2 <= octave_value(*old(self)) + rhs <= 8,
        ensures
            octave_value(*final(self)) == octave_value(*old(self)) + rhs,
    {
        let v = self.value() + rhs;
        *self = Self::of_index(v + Self::BIAS_VALUE);
    }

    /// Lowers this octave by `rhs` (`-=`); the result must be a valid octave.
    pub fn sub_assign(&mut self, rhs: i32)
        requires
            -2 <= octave_value(*old(self)) - rhs <= 8,
        ensures
            octave_value(*final(self)) == octave_value(*old(self)) - rhs,
    {
        let v = self.value() - rhs;
        *self = Self::of_index(v + Self::BIAS_VALUE);
    }

    /// The octave whose number is the sum of both numbers (`+`); the sum must be valid.
    pub fn add(self, other: Octave) -> (r: Octave)
        requires
            -2 <= octave_value(self) + octave_value(other) <= 8,
        ensures
            octave_value(r) == octave_value(self) + octave_value(other),
    {
        Self::of_index(self.value() + other.value() + Self::BIAS_VALUE)
    }
}

} // verus!
