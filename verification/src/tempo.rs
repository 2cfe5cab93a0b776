use vstd::prelude::*;
use crate::note::TickError;
use crate::have_start_tick::{HaveBaseStartTick, HaveStartTick};

verus! {

/// Lowest tempo in beats per minute.
pub const MIN_TEMPO_VALUE: u16 = 1;
/// Highest tempo in beats per minute.
pub const MAX_TEMPO_VALUE: u16 = 999;

/// A tempo clamped into the tempo range 1 ..= 999.
pub open spec fn clamped_tempo(v: int) -> int {
    if v < MIN_TEMPO_VALUE { MIN_TEMPO_VALUE as int } else if MAX_TEMPO_VALUE < v { MAX_TEMPO_VALUE as int } else { v }
}

/// Tempo in beats per minute, at most 999.
#[derive(Clone, Copy, PartialEq, Eq, Debug, PartialOrd, Ord, Structural)]
pub struct TempoValue(u16);

/// Error of a tempo change; holds the value that was refused.
#[derive(Clone, Copy, PartialEq, Eq, Debug)]
pub enum TempoError {
    InvalidValue(u16),
}

impl View for TempoValue {
    type V = int;

    closed spec fn view(&self) -> int {
        self.0 as int
    }
}

/// The lowest tempo, 1 BPM.
#[allow(non_snake_case)]
pub fn MIN_TEMPO() -> (r: TempoValue)
    ensures
        r@ == MIN_TEMPO_VALUE,
{
    TempoValue::new(MIN_TEMPO_VALUE)
}

/// The highest tempo, 999 BPM.
#[allow(non_snake_case)]
pub fn MAX_TEMPO() -> (r: TempoValue)
    ensures
        r@ == MAX_TEMPO_VALUE,
{
    TempoValue::new(MAX_TEMPO_VALUE)
}

impl TempoValue {
    /// Values with one view are the same.
    pub proof fn lemma_view_eq(a: TempoValue, b: TempoValue)
        requires
            a@ == b@,
        ensures
            a == b,
    {
    }

    #[verifier::type_invariant]
    closed spec fn inv(self) -> bool {
        self.0 <= MAX_TEMPO_VALUE
    }

    /// The tempo of the given value, which must not exceed 999.
    pub fn new(value: u16) -> (r: TempoValue)
        requires
            value <= MAX_TEMPO_VALUE,
        ensures
            r@ == value,
    {
        TempoValue(value)
    }

    pub fn value(self) -> (r: u16)
        ensures
            r == self@,
            r <= MAX_TEMPO_VALUE,
    {
        proof { use_type_invariant(&self); }
        self.0
    }

    pub fn as_u16(self) -> (r: u16)
        ensures
            r == self@,
            r <= MAX_TEMPO_VALUE,
    {
        proof { use_type_invariant(&self); }
        self.0
    }

    /// One BPM faster; fails (with the refused value) at 999.
    pub fn up(self) -> (r: Result<TempoValue, TempoError>)
        ensures
            self@ < MAX_TEMPO_VALUE ==> r is Ok && r->Ok_0@ == self@ + 1,
            self@ == MAX_TEMPO_VALUE ==> r == Err::<TempoValue, TempoError>(TempoError::InvalidValue((MAX_TEMPO_VALUE + 1) as u16)),
    {
        proof { use_type_invariant(&self); }
        let new_value = self.0 + 1;
        if MAX_TEMPO_VALUE < new_value {
            Err(TempoError::InvalidValue(new_value))
        } else {
            Ok(TempoValue::new(new_value))
        }
    }

    /// One BPM slower; fails (with the lowest value) at 1 or below.
    pub fn down(self) -> (r: Result<TempoValue, TempoError>)
        ensures
            self@ > MIN_TEMPO_VALUE ==> r is Ok && r->Ok_0@ == self@ - 1,
            self@ <= MIN_TEMPO_VALUE ==> r == Err::<TempoValue, TempoError>(TempoError::InvalidValue(MIN_TEMPO_VALUE)),
    {
        proof { use_type_invariant(&self); }
        let cur = self.0;
        if cur <= MIN_TEMPO_VALUE {
            Err(TempoError::InvalidValue(MIN_TEMPO_VALUE))
        } else {
            Ok(TempoValue::new(cur - 1))
        }
    }

    /// The tempo of the given value, clamped to at most 999.
    pub fn safe_new(value: u16) -> (r: TempoValue)
        ensures
            r@ == if MAX_TEMPO_VALUE < value { MAX_TEMPO_VALUE } else { value },
    {
        Self::new(if MAX_TEMPO_VALUE < value { MAX_TEMPO_VALUE } else { value })
    }
}

impl Default for TempoValue {
    /// 120 BPM.
    fn default() -> (r: TempoValue)
        ensures
            r@ == 120,
    {
        TempoValue(120)
    }
}

/// A tempo change at a tick.
#[derive(Clone, Copy, PartialEq, Eq, Debug, Default, Structural)]
pub struct Tempo {
    pub start_tick: u32,
    pub value: TempoValue,
}

impl Tempo {
    /// The tempo change to `value` BPM (at most 999) at `start_tick`.
    pub fn new(start_tick: u32, value: u16) -> (r: Tempo)
        requires
            value <= MAX_TEMPO_VALUE,
        ensures
            r.start_tick == start_tick,
            r.value@ == value,
    {
        Tempo { start_tick, value: TempoValue::new(value) }
    }

    /// This tempo change moved by `tick_delta` ticks and `tempo_delta` BPM, as a
    /// drag does: the tick is cut to 32 bits, and the tempo is clamped into
    /// the tempo range 1 ..= 999.
    pub fn drag(&self, tick_delta: i32, tempo_delta: i32) -> (r: Tempo)
        ensures
            r.start_tick == (self.start_tick + tick_delta) as u32,
            r.value@ == clamped_tempo(self.value@ + tempo_delta),
    {
        let sum: i64 = self.value.as_u16() as i64 + tempo_delta as i64;
        let v: u16 = if sum < MIN_TEMPO_VALUE as i64 {
            MIN_TEMPO_VALUE
        } else if (MAX_TEMPO_VALUE as i64) < sum {
            MAX_TEMPO_VALUE
        } else {
            sum as u16
        };
        Tempo {
            start_tick: (self.start_tick as i64 + tick_delta as i64) as u32,
            value: TempoValue::new(v),
        }
    }

    /// This tempo change moved by `tick_delta` ticks; fails when the tick would be negative.
    pub fn with_tick_added(&self, tick_delta: i32) -> (r: Result<Tempo, TickError>)
        ensures
            self.start_tick + tick_delta < 0 ==> r == Err::<Tempo, TickError>(TickError::Minus),
            self.start_tick + tick_delta >= 0 ==> r == Ok::<Tempo, TickError>(Tempo {
                start_tick: (self.start_tick + tick_delta) as u32, ..*self }),
    {
        let tick: i64 = self.start_tick as i64 + tick_delta as i64;
        if tick < 0 {
            Err(TickError::Minus)
        } else {
            Ok(Tempo { start_tick: tick as u32, ..*self })
        }
    }

    /// This tempo change one BPM faster.
    pub fn up(&self) -> (r: Result<Tempo, TempoError>)
        ensures
            self.value@ < MAX_TEMPO_VALUE ==> r is Ok && r->Ok_0.start_tick == self.start_tick && r->Ok_0.value@ == self.value@ + 1,
            self.value@ == MAX_TEMPO_VALUE ==> r == Err::<Tempo, TempoError>(TempoError::InvalidValue((MAX_TEMPO_VALUE + 1) as u16)),
    {
        match self.value.up() {
            Ok(tv) => Ok(Tempo { value: tv, ..*self }),
            Err(e) => Err(e),
        }
    }

    /// This tempo change one BPM slower.
    pub fn down(&self) -> (r: Result<Tempo, TempoError>)
        ensures
            self.value@ > MIN_TEMPO_VALUE ==> r is Ok && r->Ok_0.start_tick == self.start_tick && r->Ok_0.value@ == self.value@ - 1,
            self.value@ <= MIN_TEMPO_VALUE ==> r == Err::<Tempo, TempoError>(TempoError::InvalidValue(MIN_TEMPO_VALUE)),
    {
        match self.value.down() {
            Ok(tv) => Ok(Tempo { value: tv, ..*self }),
            Err(e) => Err(e),
        }
    }
}

impl HaveBaseStartTick for Tempo {
    open spec fn base_start_tick_spec(&self) -> u32 {
        self.start_tick
    }

    fn base_start_tick(&self) -> (r: u32) {
        self.start_tick
    }
}

impl HaveStartTick for Tempo {
    open spec fn start_tick_spec(&self) -> u32 {
        self.start_tick
    }

    fn start_tick(&self) -> (r: u32) {
        self.start_tick
    }
}

} // verus!
