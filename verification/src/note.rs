use vstd::prelude::*;
use std::rc::Rc;
use crate::channel::Channel;
use crate::clipper::{self, Clipper};
use crate::can_apply::CanApply;
use crate::duration::{Duration, Numerator, Dots, Denominator, tick_length_of};
use crate::trimmer::{Trimmer, RateTrimmer, levels_sum, add_from_level};
use crate::solfa::Solfa;
use crate::octave::Octave;
use crate::sharp_flat::SharpFlat;
use crate::pitch::{Pitch, PitchError, value_of_result, staff_position_of, solfa_at, octave_at,
    staff_up, staff_down, toggled_sharp, toggled_flat, toggled_natural, MIN_SCORE_OFFSET, MAX_SCORE_OFFSET};
use crate::percent::PercentU16;
use crate::have_start_tick::{HaveBaseStartTick, HaveStartTick};
use crate::velocity::{self, Velocity};

verus! {

/// A tick computation gave a negative tick.
#[derive(Clone, Copy, PartialEq, Eq, Debug)]
pub enum TickError {
    Minus,
}

/// A dot count outside 0 ..= 7; holds the count.
#[derive(Clone, Copy, PartialEq, Eq, Debug)]
pub struct InvalidDot(i32);

impl InvalidDot {
    pub closed spec fn count_spec(self) -> i32 {
        self.0
    }

    /// The invalid dot count.
    pub fn count(self) -> (r: i32)
        ensures
            r == self.count_spec(),
    {
        self.0
    }
}

/// A note: where it starts, its pitch, duration, velocity and ties, with
/// trimmers that fine-tune start, length and velocity.
#[derive(Debug, PartialEq, Eq, Clone, Default)]
pub struct Note {
    pub base_start_tick: u32,
    pub pitch: Pitch,
    pub duration: Duration,
    /// Tied to the next note.
    pub tie: bool,
    /// Tied from the previous note.
    pub tied: bool,
    pub base_velocity: Velocity,
    pub start_tick_trimmer: Trimmer,
    pub duration_trimmer: RateTrimmer,
    pub velocity_trimmer: Trimmer,
    pub channel: Channel,
}

/// The tick at which a note sounds: the base tick plus the start trimmer,
/// 0 when negative, cut to 32 bits.
pub open spec fn note_start_tick(n: Note) -> u32 {
    let t = n.base_start_tick + levels_sum(n.start_tick_trimmer@);
    if t < 0 {
        0
    } else {
        t as u32
    }
}

/// The sounding velocity of a note: the base velocity plus the velocity
/// trimmer, clamped to 0 ..= 127.
pub open spec fn note_velocity(n: Note) -> int {
    let v = n.base_velocity@ + levels_sum(n.velocity_trimmer@);
    if v < 0 {
        0
    } else if 127 < v {
        127
    } else {
        v
    }
}

/// The tie state after `toggle_tie`: none -> start -> end -> middle -> none.
pub open spec fn toggled_tie(tie: bool, tied: bool) -> (bool, bool) {
    if !tie && !tied {
        (true, false)
    } else if tie && !tied {
        (false, true)
    } else if !tie && tied {
        (true, true)
    } else {
        (false, false)
    }
}

/// What a note operation that sets the pitch to solfa `s`, octave `o` and
/// accidental `sf` gives: the error of `Pitch::value_of`, or note `n` with that pitch.
pub open spec fn note_pitch_result(r: Result<Note, PitchError>, n: Note, s: Solfa, o: Octave, sf: SharpFlat) -> bool {
    let v = crate::pitch::pitch_value(s, o, sf);
    if v < 0 {
        r == Err::<Note, PitchError>(PitchError::TooLow(s, o, sf, v as i32))
    } else if 127 < v {
        r == Err::<Note, PitchError>(PitchError::TooHigh(s, o, sf, v as i32))
    } else {
        r is Ok && r->Ok_0 == (Note { pitch: r->Ok_0.pitch, ..n }) && r->Ok_0.pitch@ == (s, o, sf)
    }
}

impl Note {
    /// Lowest tick.
    pub const MIN_TICK: i32 = 0;

    /// Highest staff position a drag may reach.
    pub const MAX_SCORE_OFFSET: i32 = 76;

    /// Clamps ticks into 0 ..= i32::MAX.
    #[allow(non_snake_case)]
    pub fn TICK_CLIPPER() -> (r: Clipper<i32>)
        ensures
            r.min == 0,
            r.max == i32::MAX,
    {
        clipper::for_i32(0, i32::MAX)
    }

    /// Clamps velocities into 0 ..= 127.
    #[allow(non_snake_case)]
    pub fn VELOCITY_CLIPPER() -> (r: Clipper<i16>)
        ensures
            r.min == 0,
            r.max == 127,
    {
        clipper::for_i16(0, 127)
    }

    /// The longest sounding length of a note: a whole note with seven dots at the
    /// highest duration rate (200 %).
    #[allow(non_snake_case)]
    pub fn LONGEST_TICK_LEN() -> (r: u32)
        ensures
            r == 3826,
    {
        let d = Duration::new(Numerator::Whole, Denominator::default(), Dots::SEVEN());
        let len = d.tick_length();
        proof {
            reveal_with_fuel(crate::duration::two_pow, 8);
            assert(crate::duration::two_pow(7) == 128);
            assert(d.denominator@ == 2);
            assert(d.dots@ == 7);
            assert(crate::duration::two_pow(7int as nat) as int == 128);
            assert((960 + (960 - 960int / 128)) * 2 / 2 == 1913);
            assert(crate::duration::duration_ticks(Numerator::Whole, 2, 7) == 1913);
            assert(len == 1913);
        }
        let rate: u32 = (PercentU16::MAX().value() / 1000) as u32;
        len * rate
    }

    /// The tick at which this note sounds.
    pub fn start_tick(&self) -> (r: u32)
        ensures
            r == note_start_tick(*self),
    {
        let tick: i64 = self.base_start_tick as i64 + self.start_tick_trimmer.sum() as i64;
        if tick < 0 {
            0
        } else {
            tick as u32
        }
    }

    /// The sounding length in ticks: the duration scaled by the duration trimmer.
    pub fn tick_len(&self) -> (r: u32)
        ensures
            r == self.duration_trimmer.applied(tick_length_of(self.duration) as u32),
    {
        self.duration_trimmer.apply(self.duration.tick_length())
    }

    /// This note one staff position higher.
    pub fn up_score_offset(&self) -> (r: Result<Note, PitchError>)
        ensures
            match staff_up(self.pitch@.0, self.pitch@.1) {
                None => r == Err::<Note, PitchError>(PitchError::TooHigh(self.pitch@.0, self.pitch@.1, self.pitch@.2, -1i32)),
                Some(so) => note_pitch_result(r, *self, so.0, so.1, self.pitch@.2),
            },
    {
        let p = self.pitch.up();
        match p {
            Ok(pitch) => Ok(Note { pitch, ..*self }),
            Err(e) => Err(e),
        }
    }

    /// This note one staff position lower.
    pub fn down_score_offset(&self) -> (r: Result<Note, PitchError>)
        ensures
            match staff_down(self.pitch@.0, self.pitch@.1) {
                None => r == Err::<Note, PitchError>(PitchError::TooLow(self.pitch@.0, self.pitch@.1, self.pitch@.2, -1i32)),
                Some(so) => note_pitch_result(r, *self, so.0, so.1, self.pitch@.2),
            },
    {
        let p = self.pitch.down();
        match p {
            Ok(pitch) => Ok(Note { pitch, ..*self }),
            Err(e) => Err(e),
        }
    }

    pub fn with_duration(&self, d: Duration) -> (r: Note)
        ensures
            r == (Note { duration: d, ..*self }),
    {
        Note { duration: d, ..*self }
    }

    pub fn with_duration_numerator(&self, numerator: Numerator) -> (r: Note)
        ensures
            r == (Note { duration: Duration { numerator, ..self.duration }, ..*self }),
    {
        Note {
            duration: if self.duration.numerator != numerator {
                self.duration.with_numerator(numerator)
            } else {
                self.duration
            },
            ..*self
        }
    }

    /// This note moved by `tick_delta` ticks, either in its base tick or (when
    /// `is_trim`) in its start trimmer. Fails when the base tick plus the delta
    /// is negative.
    pub fn with_tick_added(&self, tick_delta: i32, is_trim: bool) -> (r: Result<Note, TickError>)
        requires
            is_trim ==> i32::MIN <= self.start_tick_trimmer@[0] + tick_delta <= i32::MAX,
        ensures
            self.base_start_tick + tick_delta < 0 ==> r == Err::<Note, TickError>(TickError::Minus),
            self.base_start_tick + tick_delta >= 0 && is_trim ==> r is Ok && r->Ok_0 == (Note {
                start_tick_trimmer: r->Ok_0.start_tick_trimmer, ..*self })
                && r->Ok_0.start_tick_trimmer@ == add_from_level(self.start_tick_trimmer@, tick_delta as int, 0),
            self.base_start_tick + tick_delta >= 0 && !is_trim ==> r == Ok::<Note, TickError>(Note {
                base_start_tick: (self.base_start_tick + tick_delta) as u32, ..*self }),
    {
        let tick: i64 = self.base_start_tick as i64 + tick_delta as i64;
        if tick < 0 {
            Err(TickError::Minus)
        } else if is_trim {
            let trimmer = self.start_tick_trimmer.added(tick_delta);
            Ok(Note { start_tick_trimmer: trimmer, ..*self })
        } else {
            Ok(Note { base_start_tick: tick as u32, ..*self })
        }
    }

    /// This note moved by `tick_delta` ticks (cut to 32 bits) and by
    /// `score_offset_delta` staff positions; the new position must hold a pitch.
    pub fn drag(&self, tick_delta: i32, score_offset_delta: i32) -> (r: Note)
        requires
            ({
                let pos = staff_position_of(self.pitch@) + score_offset_delta;
                &&& MIN_SCORE_OFFSET <= pos <= MAX_SCORE_OFFSET
                &&& 0 <= crate::pitch::pitch_value(solfa_at(pos), octave_at(pos), self.pitch@.2) <= 127
            }),
        ensures
            ({
                let pos = staff_position_of(self.pitch@) + score_offset_delta;
                &&& r == (Note { base_start_tick: (self.base_start_tick + tick_delta) as u32, pitch: r.pitch, ..*self })
                &&& r.pitch@ == (solfa_at(pos), octave_at(pos), self.pitch@.2)
            }),
    {
        let tick: i64 = self.base_start_tick as i64 + tick_delta as i64;
        let pitch = match self.pitch.with_score_offset_delta(score_offset_delta) {
            Ok(p) => p,
            Err(_) => {
                proof { assert(false); }
                self.pitch
            },
        };
        Note { base_start_tick: tick as u32, pitch, ..*self }
    }

    /// This note with `dots_to_add` more dots (fewer when negative); fails with the
    /// resulting count when it leaves 0 ..= 7.
    pub fn add_dots(&self, dots_to_add: i32) -> (r: Result<Note, InvalidDot>)
        requires
            self.duration.dots@ + dots_to_add <= i32::MAX,
        ensures
            ({
                let n = self.duration.dots@ + dots_to_add;
                if n < 0 || 7 < n {
                    r is Err && r->Err_0.count_spec() == n
                } else {
                    r is Ok && r->Ok_0 == (Note { duration: Duration { dots: r->Ok_0.duration.dots, ..self.duration }, ..*self })
                        && r->Ok_0.duration.dots@ == n
                }
            }),
    {
        let new_dots: i32 = self.duration.dots.value() as i32 + dots_to_add;
        if new_dots < 0 || (Duration::MAX_DOT as i32) < new_dots {
            Err(InvalidDot(new_dots))
        } else {
            let dots = match Dots::from_value(new_dots as u8) {
                Some(d) => d,
                None => {
                    proof { assert(false); }
                    self.duration.dots
                },
            };
            Ok(Note { duration: self.duration.with_dots(dots), ..*self })
        }
    }

    pub fn toggle_sharp(&self) -> (r: Result<Note, PitchError>)
        ensures
            note_pitch_result(r, *self, self.pitch@.0, self.pitch@.1, toggled_sharp(self.pitch@.2)),
    {
        match self.pitch.toggle_sharp() {
            Ok(pitch) => Ok(Note { pitch, ..*self }),
            Err(e) => Err(e),
        }
    }

    pub fn toggle_flat(&self) -> (r: Result<Note, PitchError>)
        ensures
            note_pitch_result(r, *self, self.pitch@.0, self.pitch@.1, toggled_flat(self.pitch@.2)),
    {
        match self.pitch.toggle_flat() {
            Ok(pitch) => Ok(Note { pitch, ..*self }),
            Err(e) => Err(e),
        }
    }

    pub fn toggle_natural(&self) -> (r: Result<Note, PitchError>)
        ensures
            note_pitch_result(r, *self, self.pitch@.0, self.pitch@.1, toggled_natural(self.pitch@.2)),
    {
        match self.pitch.toggle_natural() {
            Ok(pitch) => Ok(Note { pitch, ..*self }),
            Err(e) => Err(e),
        }
    }

    /// This note with the tie state advanced: none, start, end, middle, none.
    pub fn toggle_tie(&self) -> (r: Note)
        ensures
            r == (Note { tie: toggled_tie(self.tie, self.tied).0, tied: toggled_tie(self.tie, self.tied).1, ..*self }),
    {
        let mut tie = self.tie;
        let mut tied = self.tied;
        if !tie && !tied {
            tie = true;
            tied = false;
        } else if tie && !tied {
            tie = false;
            tied = true;
        } else if !tie && tied {
            tie = true;
            tied = true;
        } else {
            tie = false;
            tied = false;
        }
        Note { tie, tied, ..*self }
    }

    pub fn base_velocity(&self) -> (r: Velocity)
        ensures
            r == self.base_velocity,
    {
        self.base_velocity
    }

    /// The sounding velocity: base velocity plus velocity trimmer, clamped to 0 ..= 127.
    pub fn velocity(&self) -> (r: Velocity)
        ensures
            r@ == note_velocity(*self),
    {
        let mut v: i32 = self.base_velocity.as_u8() as i32;
        v = v + self.velocity_trimmer.sum();
        if v < 0 {
            velocity::MIN()
        } else if 127 < v {
            velocity::MAX()
        } else {
            Velocity::new(v as u8)
        }
    }
}

/// The longest tick length of a note in ticks, as a signed number: two whole notes.
pub const MAX_TICK_LEN: i32 = 1920;

impl HaveBaseStartTick for Note {
    open spec fn base_start_tick_spec(&self) -> u32 {
        self.base_start_tick
    }

    fn base_start_tick(&self) -> (r: u32) {
        self.base_start_tick
    }
}

impl HaveStartTick for Note {
    open spec fn start_tick_spec(&self) -> u32 {
        note_start_tick(*self)
    }

    fn start_tick(&self) -> (r: u32) {
        Note::start_tick(self)
    }
}

impl HaveBaseStartTick for Rc<Note> {
    open spec fn base_start_tick_spec(&self) -> u32 {
        self.base_start_tick
    }

    fn base_start_tick(&self) -> (r: u32) {
        self.base_start_tick
    }
}

impl HaveStartTick for Rc<Note> {
    open spec fn start_tick_spec(&self) -> u32 {
        note_start_tick(**self)
    }

    fn start_tick(&self) -> (r: u32) {
        Note::start_tick(&**self)
    }
}

} // verus!
