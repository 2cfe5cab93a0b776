use vstd::prelude::*;
use crate::solfa::{Solfa, solfa_score_offset, solfa_pitch_offset, solfa_of_score_offset, lemma_solfa_score_offset_roundtrip};
use crate::octave::{self, Octave, octave_offset, octave_of_offset, lemma_octave_offset_roundtrip};
use crate::sharp_flat::{SharpFlat, sharp_flat_offset};
use crate::key::{Key, key_alters};

verus! {

/// Error of pitch construction or movement.
#[derive(Debug, Clone, Copy, PartialEq, Eq)]
pub enum PitchError {
    /// The MIDI note number (last field) would be below 0.
    TooLow(Solfa, Octave, SharpFlat, i32),
    /// The MIDI note number (last field) would be above 127.
    TooHigh(Solfa, Octave, SharpFlat, i32),
    /// The staff position would leave 0 ..= 74.
    InvalidScoreOffset(i32),
}

/// Lowest MIDI note number.
pub const MIN_VALUE: i8 = 0;
/// Highest MIDI note number.
pub const MAX_VALUE: i8 = 127;
/// Lowest staff position (C of octave -2).
pub const MIN_SCORE_OFFSET: i32 = 0;
/// Highest staff position (G of octave 8).
pub const MAX_SCORE_OFFSET: i32 = 74;

/// The MIDI note number of a solfa in an octave with an accidental.
pub open spec fn pitch_value(s: Solfa, o: Octave, sf: SharpFlat) -> int {
    solfa_pitch_offset(s) + octave_offset(o) * 12 + sharp_flat_offset(sf)
}

/// The staff position of a solfa in an octave: seven positions per octave,
/// counted from C of octave -2.
pub open spec fn staff_position(s: Solfa, o: Octave) -> int {
    solfa_score_offset(s) + 7 * octave_offset(o)
}

/// The solfa at a staff position in 0 ..= 76.
pub open spec fn solfa_at(pos: int) -> Solfa {
    solfa_of_score_offset(pos % 7)
}

/// The octave at a staff position in 0 ..= 76.
pub open spec fn octave_at(pos: int) -> Octave {
    octave_of_offset(pos / 7)
}

/// Whether a solfa, octave and accidental give a MIDI note number in 0 ..= 127.
pub open spec fn pitch_in_range(s: Solfa, o: Octave, sf: SharpFlat) -> bool {
    0 <= pitch_value(s, o, sf) <= 127
}

/// A staff position and the solfa and octave at it determine each other.
pub proof fn lemma_staff_position_roundtrip(s: Solfa, o: Octave, pos: int)
    ensures
        solfa_at(staff_position(s, o)) == s,
        octave_at(staff_position(s, o)) == o,
        0 <= pos <= 76 ==> staff_position(solfa_at(pos), octave_at(pos)) == pos,
{
    lemma_solfa_score_offset_roundtrip(s);
    lemma_octave_offset_roundtrip(o, pos / 7);
    let p = staff_position(s, o);
    assert(p % 7 == solfa_score_offset(s) && p / 7 == octave_offset(o)) by (nonlinear_arith)
        requires
            p == solfa_score_offset(s) + 7 * octave_offset(o),
            0 <= solfa_score_offset(s) <= 6,
    ;
    if 0 <= pos <= 76 {
        assert(0 <= pos / 7 <= 10);
        lemma_octave_offset_roundtrip(o, pos / 7);
        assert(pos == pos % 7 + 7 * (pos / 7)) by (nonlinear_arith);
    }
}

/// A pitch: a solfa in an octave with an accidental. The MIDI note number and
/// the staff position are kept beside it.
#[derive(Debug, Clone, Copy, PartialEq, Eq, Hash, Structural)]
pub struct Pitch {
    solfa: Solfa,
    octave: Octave,
    sharp_flat: SharpFlat,
    value: u8,
    score_offset: i8,
}

impl View for Pitch {
    type V = (Solfa, Octave, SharpFlat);

    closed spec fn view(&self) -> (Solfa, Octave, SharpFlat) {
        (self.solfa, self.octave, self.sharp_flat)
    }
}

/// The MIDI note number of a pitch.
pub open spec fn pitch_value_of(p: (Solfa, Octave, SharpFlat)) -> int {
    pitch_value(p.0, p.1, p.2)
}

/// The staff position of a pitch.
pub open spec fn staff_position_of(p: (Solfa, Octave, SharpFlat)) -> int {
    staff_position(p.0, p.1)
}

/// What `Pitch::value_of` gives for a solfa, octave and accidental.
pub open spec fn value_of_result(r: Result<Pitch, PitchError>, s: Solfa, o: Octave, sf: SharpFlat) -> bool {
    let v = pitch_value(s, o, sf);
    if v < 0 {
        r == Err::<Pitch, PitchError>(PitchError::TooLow(s, o, sf, v as i32))
    } else if 127 < v {
        r == Err::<Pitch, PitchError>(PitchError::TooHigh(s, o, sf, v as i32))
    } else {
        r is Ok && r->Ok_0@ == (s, o, sf)
    }
}

/// The accidental that `toggle_sharp` sets: a sharp note becomes natural, a
/// double sharp loses its accidental, any other note becomes sharp.
pub open spec fn toggled_sharp(sf: SharpFlat) -> SharpFlat {
    match sf {
        SharpFlat::Sharp => SharpFlat::Natural,
        SharpFlat::DoubleSharp => SharpFlat::Null,
        _ => SharpFlat::Sharp,
    }
}

/// The accidental that `toggle_flat` sets: a flat note becomes natural, a
/// double flat loses its accidental, any other note becomes flat.
pub open spec fn toggled_flat(sf: SharpFlat) -> SharpFlat {
    match sf {
        SharpFlat::Flat => SharpFlat::Natural,
        SharpFlat::DoubleFlat => SharpFlat::Null,
        _ => SharpFlat::Flat,
    }
}

/// The accidental that `toggle_natural` sets.
pub open spec fn toggled_natural(sf: SharpFlat) -> SharpFlat {
    match sf {
        SharpFlat::Natural => SharpFlat::Null,
        _ => SharpFlat::Natural,
    }
}

/// The solfa and octave one staff position above; `None` at B of octave 8.
pub open spec fn staff_up(s: Solfa, o: Octave) -> Option<(Solfa, Octave)> {
    if s == Solfa::B {
        if o == Octave::Oct8 {
            None
        } else {
            Some((Solfa::C, octave_of_offset(octave_offset(o) + 1)))
        }
    } else {
        Some((solfa_of_score_offset(solfa_score_offset(s) + 1), o))
    }
}

/// The solfa and octave one staff position below; `None` at C of octave -2.
pub open spec fn staff_down(s: Solfa, o: Octave) -> Option<(Solfa, Octave)> {
    if s == Solfa::C {
        if o == Octave::OctM2 {
            None
        } else {
            Some((Solfa::B, octave_of_offset(octave_offset(o) - 1)))
        }
    } else {
        Some((solfa_of_score_offset(solfa_score_offset(s) - 1), o))
    }
}

impl Pitch {
    #[verifier::type_invariant]
    closed spec fn inv(self) -> bool {
        &&& 0 <= pitch_value(self.solfa, self.octave, self.sharp_flat) <= 127
        &&& self.value == pitch_value(self.solfa, self.octave, self.sharp_flat)
        &&& self.score_offset == staff_position(self.solfa, self.octave)
    }

    /// The MIDI note number of a solfa, octave and accidental (not range checked).
    pub fn to_value(solfa: Solfa, octave: Octave, sharp_flat: SharpFlat) -> (r: i32)
        ensures
            r == pitch_value(solfa, octave, sharp_flat),
    {
        solfa.pitch_offset() + (octave.value() + Octave::BIAS_VALUE) * 12 + sharp_flat.offset()
    }

    /// The pitch of a solfa, octave and accidental, or why it is outside the MIDI range.
    pub fn value_of(solfa: Solfa, octave: Octave, sharp_flat: SharpFlat) -> (r: Result<Pitch, PitchError>)
        ensures
            value_of_result(r, solfa, octave, sharp_flat),
    {
        let v: i32 = Self::to_value(solfa, octave, sharp_flat);
        if v < (MIN_VALUE as i32) {
            Err(PitchError::TooLow(solfa, octave, sharp_flat, v))
        } else if (MAX_VALUE as i32) < v {
            Err(PitchError::TooHigh(solfa, octave, sharp_flat, v))
        } else {
            let so = (solfa.score_offset() + 7 * octave.offset()) as i8;
            Ok(Pitch { solfa, octave, sharp_flat, value: v as u8, score_offset: so })
        }
    }

    /// The pitch of a solfa, octave and accidental, which must be in the MIDI range.
    pub fn new(solfa: Solfa, octave: Octave, sharp_flat: SharpFlat) -> (r: Pitch)
        requires
            pitch_in_range(solfa, octave, sharp_flat),
        ensures
            r@ == (solfa, octave, sharp_flat),
    {
        match Self::value_of(solfa, octave, sharp_flat) {
            Ok(p) => p,
            Err(_) => {
                proof { assert(false); }
                Pitch { solfa: Solfa::C, octave: Octave::OctM2, sharp_flat: SharpFlat::Null, value: 0, score_offset: 0 }
            }
        }
    }

    /// The pitch with the key signature applied: a pitch without accidental on a
    /// solfa that the key alters gets the key's sharp or flat.
    pub fn apply_key(self, key: Key) -> (r: Result<Pitch, PitchError>)
        ensures
            ({
                let (s, o, sf) = self@;
                if sf == SharpFlat::Null && key_alters(key@, s) == Some(true) {
                    value_of_result(r, s, o, if key@ < 0 { SharpFlat::Flat } else { SharpFlat::Sharp })
                } else {
                    r == Ok::<Pitch, PitchError>(self)
                }
            }),
    {
        if self.sharp_flat == SharpFlat::Null {
            match key.alters(self.solfa) {
                Some(true) => {
                    let sharp_flat = if key.is_flat() { SharpFlat::Flat } else { SharpFlat::Sharp };
                    Pitch::value_of(self.solfa, self.octave, sharp_flat)
                },
                _ => Ok(self),
            }
        } else {
            Ok(self)
        }
    }

    pub fn toggle_sharp(self) -> (r: Result<Pitch, PitchError>)
        ensures
            value_of_result(r, self@.0, self@.1, toggled_sharp(self@.2)),
    {
        let sharp_flat = match self.sharp_flat {
            SharpFlat::Sharp => SharpFlat::Natural,
            SharpFlat::DoubleSharp => SharpFlat::Null,
            _ => SharpFlat::Sharp,
        };
        Self::value_of(self.solfa, self.octave, sharp_flat)
    }

    pub fn toggle_flat(self) -> (r: Result<Pitch, PitchError>)
        ensures
            value_of_result(r, self@.0, self@.1, toggled_flat(self@.2)),
    {
        let sharp_flat = match self.sharp_flat {
            SharpFlat::Flat => SharpFlat::Natural,
            SharpFlat::DoubleFlat => SharpFlat::Null,
            _ => SharpFlat::Flat,
        };
        Self::value_of(self.solfa, self.octave, sharp_flat)
    }

    pub fn toggle_natural(self) -> (r: Result<Pitch, PitchError>)
        ensures
            value_of_result(r, self@.0, self@.1, toggled_natural(self@.2)),
    {
        let sharp_flat = match self.sharp_flat {
            SharpFlat::Natural => SharpFlat::Null,
            _ => SharpFlat::Natural,
        };
        Self::value_of(self.solfa, self.octave, sharp_flat)
    }

    /// The solfa and octave at a staff position. Positions from -6 to -1 give C
    /// of octave -2 (the division truncates toward zero); positions outside
    /// -6 ..= 76 make the octave lookup panic and are excluded.
    pub fn score_offset_to_solfa_octave(score_offset: i32) -> (r: (Solfa, Octave))
        requires
            -6 <= score_offset <= 76,
        ensures
            score_offset < 0 ==> r == (Solfa::C, Octave::OctM2),
            score_offset >= 0 ==> r == (solfa_at(score_offset as int), octave_at(score_offset as int)),
    {
        if score_offset < 0 {
            (Solfa::C, Octave::OctM2)
        } else {
            let octave_offset = score_offset / 7;
            let solfa_offset = score_offset - (octave_offset * 7);
            let solfa = Solfa::from_score_offset(solfa_offset);
            let octave = match Octave::from_score_offset(octave_offset) {
                Ok(o) => o,
                Err(_) => {
                    proof { assert(false); }
                    Octave::OctM2
                },
            };
            (solfa, octave)
        }
    }

    /// The pitch without accidental at a staff position, clamped to 0 ..= 74.
    pub fn from_score_offset(score_offset: i32) -> (r: Pitch)
        ensures
            ({
                let pos = if score_offset < MIN_SCORE_OFFSET {
                    MIN_SCORE_OFFSET as int
                } else if MAX_SCORE_OFFSET < score_offset {
                    MAX_SCORE_OFFSET as int
                } else {
                    score_offset as int
                };
                r@ == (solfa_at(pos), octave_at(pos), SharpFlat::Null)
            }),
    {
        let score_offset = if score_offset < MIN_SCORE_OFFSET {
            MIN_SCORE_OFFSET
        } else if MAX_SCORE_OFFSET < score_offset {
            MAX_SCORE_OFFSET
        } else {
            score_offset
        };
        let (solfa, octave) = Self::score_offset_to_solfa_octave(score_offset);
        proof {
            lemma_position_in_range(score_offset as int);
        }
        Self::new(solfa, octave, SharpFlat::Null)
    }

    /// The pitch `delta` staff positions away, keeping the accidental.
    pub fn with_score_offset_delta(self, score_offset_delta: i32) -> (r: Result<Pitch, PitchError>)
        requires
            i32::MIN <= staff_position_of(self@) + score_offset_delta <= i32::MAX,
        ensures
            ({
                let pos = staff_position_of(self@) + score_offset_delta;
                if pos < MIN_SCORE_OFFSET || MAX_SCORE_OFFSET < pos {
                    r == Err::<Pitch, PitchError>(PitchError::InvalidScoreOffset(pos as i32))
                } else {
                    value_of_result(r, solfa_at(pos), octave_at(pos), self@.2)
                }
            }),
    {
        proof { use_type_invariant(&self); }
        let score_offset = self.score_offset as i32 + score_offset_delta;
        if score_offset < MIN_SCORE_OFFSET || MAX_SCORE_OFFSET < score_offset {
            return Err(PitchError::InvalidScoreOffset(score_offset));
        }
        let (solfa, octave) = Self::score_offset_to_solfa_octave(score_offset);
        Self::value_of(solfa, octave, self.sharp_flat)
    }

    /// The staff position, 0 ..= 74 for C of octave -2 up to G of octave 8.
    pub fn score_offset(self) -> (r: i8)
        ensures
            r == staff_position_of(self@),
            0 <= r <= 76,
    {
        proof {
            use_type_invariant(&self);
            lemma_solfa_score_offset_roundtrip(self.solfa);
            lemma_octave_offset_roundtrip(self.octave, 0);
        }
        self.score_offset
    }

    pub fn sharp_flat(self) -> (r: SharpFlat)
        ensures
            r == self@.2,
    {
        self.sharp_flat
    }

    /// The pitch one staff position above, keeping the accidental.
    pub fn up(self) -> (r: Result<Pitch, PitchError>)
        ensures
            ({
                let (s, o, sf) = self@;
                match staff_up(s, o) {
                    None => r == Err::<Pitch, PitchError>(PitchError::TooHigh(s, o, sf, -1i32)),
                    Some(so) => value_of_result(r, so.0, so.1, sf),
                }
            }),
    {
        let mut solfa = self.solfa;
        let mut octave = self.octave;
        if solfa == Solfa::B {
            if octave != octave::MAX {
                octave.add_assign(1);
                solfa = Solfa::C;
            } else {
                return Err(PitchError::TooHigh(solfa, octave, self.sharp_flat, -1));
            }
        } else {
            solfa.add_assign(1);
        }
        proof {
            lemma_octave_offset_roundtrip(self.octave, octave_offset(self.octave) + 1);
        }
        Self::value_of(solfa, octave, self.sharp_flat)
    }

    /// The pitch one staff position below, keeping the accidental.
    pub fn down(self) -> (r: Result<Pitch, PitchError>)
        ensures
            ({
                let (s, o, sf) = self@;
                match staff_down(s, o) {
                    None => r == Err::<Pitch, PitchError>(PitchError::TooLow(s, o, sf, -1i32)),
                    Some(so) => value_of_result(r, so.0, so.1, sf),
                }
            }),
    {
        let mut solfa = self.solfa;
        let mut octave = self.octave;
        if solfa == Solfa::C {
            if octave != octave::MIN {
                octave.sub_assign(1);
                solfa = Solfa::B;
            } else {
                return Err(PitchError::TooLow(solfa, octave, self.sharp_flat, -1));
            }
        } else {
            solfa.sub_assign(1);
        }
        proof {
            lemma_octave_offset_roundtrip(self.octave, octave_offset(self.octave) - 1);
        }
        Self::value_of(solfa, octave, self.sharp_flat)
    }

    pub fn solfa(self) -> (r: Solfa)
        ensures
            r == self@.0,
    {
        self.solfa
    }

    pub fn octave(self) -> (r: Octave)
        ensures
            r == self@.1,
    {
        self.octave
    }

    /// The MIDI note number, 0 ..= 127.
    pub fn value(self) -> (r: u8)
        ensures
            r == pitch_value_of(self@),
            r <= 127,
    {
        proof { use_type_invariant(&self); }
        self.value
    }
}

/// Staff positions 0 ..= 74 without accidental are inside the MIDI range.
pub proof fn lemma_position_in_range(pos: int)
    requires
        0 <= pos <= 74,
    ensures
        pitch_in_range(solfa_at(pos), octave_at(pos), SharpFlat::Null),
{
    let q = pos / 7;
    let r = pos % 7;
    assert(pos == 7 * q + r && 0 <= r < 7);
    assert(0 <= q <= 10);
    lemma_octave_offset_roundtrip(Octave::Oct0, q);
    assert(q < 10 || r <= 4);
}

/// Moving a pitch one staff position up and then one down gives back the
/// solfa and octave it started from (and the same for down, then up).
pub proof fn law_staff_up_down_inverse(s: Solfa, o: Octave)
    ensures
        staff_up(s, o) matches Some(u) ==> staff_down(u.0, u.1) == Some((s, o)),
        staff_down(s, o) matches Some(d) ==> staff_up(d.0, d.1) == Some((s, o)),
{
    lemma_octave_offset_roundtrip(o, octave_offset(o) + 1);
    lemma_octave_offset_roundtrip(o, octave_offset(o) - 1);
    lemma_octave_offset_roundtrip(octave_of_offset(octave_offset(o) + 1), octave_offset(o));
    lemma_octave_offset_roundtrip(octave_of_offset(octave_offset(o) - 1), octave_offset(o));
    lemma_solfa_score_offset_roundtrip(s);
}

/// One staff position up raises the staff position by one; only B of octave 8
/// (position 76) has none above it.
pub proof fn law_staff_up_moves_one(s: Solfa, o: Octave)
    ensures
        staff_up(s, o) matches Some(u) ==> staff_position(u.0, u.1) == staff_position(s, o) + 1,
        staff_up(s, o) is None <==> staff_position(s, o) == 76,
{
    lemma_octave_offset_roundtrip(o, octave_offset(o) + 1);
    lemma_octave_offset_roundtrip(o, 0);
    lemma_solfa_score_offset_roundtrip(s);
}

/// C of octave -2 is MIDI note 0. One staff position up is a semitone from
/// E to F and from B to C, a whole tone otherwise; an octave up is twelve
/// semitones; a sharp raises by one semitone and a flat lowers by one (two
/// for double ones), and a natural changes nothing.
pub proof fn law_pitch_steps(s: Solfa, o: Octave, sf: SharpFlat)
    ensures
        pitch_value(Solfa::C, Octave::OctM2, SharpFlat::Null) == 0,
        staff_up(s, o) matches Some(u) ==> pitch_value(u.0, u.1, sf)
            == pitch_value(s, o, sf) + if s == Solfa::E || s == Solfa::B { 1int } else { 2int },
        o != Octave::Oct8 ==> pitch_value(s, octave_of_offset(octave_offset(o) + 1), sf) == pitch_value(s, o, sf) + 12,
        pitch_value(s, o, SharpFlat::Sharp) == pitch_value(s, o, SharpFlat::Null) + 1,
        pitch_value(s, o, SharpFlat::DoubleSharp) == pitch_value(s, o, SharpFlat::Null) + 2,
        pitch_value(s, o, SharpFlat::Flat) == pitch_value(s, o, SharpFlat::Null) - 1,
        pitch_value(s, o, SharpFlat::DoubleFlat) == pitch_value(s, o, SharpFlat::Null) - 2,
        pitch_value(s, o, SharpFlat::Natural) == pitch_value(s, o, SharpFlat::Null),
{
    lemma_octave_offset_roundtrip(o, octave_offset(o) + 1);
    lemma_octave_offset_roundtrip(o, 0);
    lemma_solfa_score_offset_roundtrip(s);
}

/// The pitch at a staff position in 0 ..= 74 lies at that position.
pub proof fn law_from_score_offset_position(pos: int)
    requires
        0 <= pos <= 74,
    ensures
        staff_position(solfa_at(pos), octave_at(pos)) == pos,
{
    lemma_staff_position_roundtrip(Solfa::C, Octave::Oct0, pos);
}

/// The lowest pitch: C of octave -2 (MIDI note 0).
#[allow(non_snake_case)]
pub fn MIN() -> (r: Pitch)
    ensures
        r@ == (Solfa::C, Octave::OctM2, SharpFlat::Null),
{
    Pitch::new(Solfa::C, Octave::OctM2, SharpFlat::Null)
}

/// The highest pitch without accidental: G of octave 8 (MIDI note 127).
#[allow(non_snake_case)]
pub fn MAX() -> (r: Pitch)
    ensures
        r@ == (Solfa::G, Octave::Oct8, SharpFlat::Null),
{
    Pitch::new(Solfa::G, Octave::Oct8, SharpFlat::Null)
}

impl Default for Pitch {
    /// A of octave 4 without accidental.
    fn default() -> (r: Pitch)
        ensures
            r@ == (Solfa::A, Octave::Oct4, SharpFlat::Null),
    {
        Pitch::new(Solfa::A, Octave::Oct4, SharpFlat::Null)
    }
}

} // verus!
