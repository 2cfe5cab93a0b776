use vstd::prelude::*;
use crate::numtext::{decimal_digits, decimal_text};

verus! {

/// Note type: whole, half, quarter, ... down to 128th.
#[derive(Clone, Copy, PartialEq, Eq, Debug, Hash, Structural)]
pub enum Numerator {
    Whole,
    Half,
    Quarter,
    N8th,
    N16th,
    N32nd,
    N64th,
    N128th,
}

/// The ordinal of a note type (whole = 0 ... 128th = 7).
pub open spec fn numerator_ord(n: Numerator) -> int {
    match n {
        Numerator::Whole => 0,
        Numerator::Half => 1,
        Numerator::Quarter => 2,
        Numerator::N8th => 3,
        Numerator::N16th => 4,
        Numerator::N32nd => 5,
        Numerator::N64th => 6,
        Numerator::N128th => 7,
    }
}

/// The note type of an ordinal in 0 ..= 7.
pub open spec fn numerator_of_ord(o: int) -> Option<Numerator> {
    if o == 0 {
        Some(Numerator::Whole)
    } else if o == 1 {
        Some(Numerator::Half)
    } else if o == 2 {
        Some(Numerator::Quarter)
    } else if o == 3 {
        Some(Numerator::N8th)
    } else if o == 4 {
        Some(Numerator::N16th)
    } else if o == 5 {
        Some(Numerator::N32nd)
    } else if o == 6 {
        Some(Numerator::N64th)
    } else if o == 7 {
        Some(Numerator::N128th)
    } else {
        None
    }
}

/// Ticks of an undotted, untupled note type: 240 per quarter, halved per step
/// and truncated (the 128th note has 7 ticks).
pub open spec fn numerator_tick_len(n: Numerator) -> int {
    match n {
        Numerator::Whole => 960,
        Numerator::Half => 480,
        Numerator::Quarter => 240,
        Numerator::N8th => 120,
        Numerator::N16th => 60,
        Numerator::N32nd => 30,
        Numerator::N64th => 15,
        Numerator::N128th => 7,
    }
}

/// Two to the power `d`.
pub open spec fn two_pow(d: nat) -> nat
    decreases d,
{
    if d == 0 {
        1
    } else {
        2 * two_pow((d - 1) as nat)
    }
}

pub proof fn lemma_two_pow_positive(d: nat)
    ensures
        two_pow(d) >= 1,
    decreases d,
{
    if d > 0 {
        lemma_two_pow_positive((d - 1) as nat);
    }
}

impl Numerator {
    pub fn ord(self) -> (r: u8)
        ensures
            r == numerator_ord(self),
    {
        match self {
            Numerator::Whole => 0,
            Numerator::Half => 1,
            Numerator::Quarter => 2,
            Numerator::N8th => 3,
            Numerator::N16th => 4,
            Numerator::N32nd => 5,
            Numerator::N64th => 6,
            Numerator::N128th => 7,
        }
    }

    pub fn from_ord(ord: u8) -> (r: Option<Numerator>)
        ensures
            r == numerator_of_ord(ord as int),
    {
        match ord {
            0 => Some(Numerator::Whole),
            1 => Some(Numerator::Half),
            2 => Some(Numerator::Quarter),
            3 => Some(Numerator::N8th),
            4 => Some(Numerator::N16th),
            5 => Some(Numerator::N32nd),
            6 => Some(Numerator::N64th),
            7 => Some(Numerator::N128th),
            _ => None,
        }
    }
}

impl Default for Numerator {
    fn default() -> (r: Numerator)
        ensures
            r == Numerator::Quarter,
    {
        Numerator::Quarter
    }
}

/// Tuplet denominator: 2 for plain notes, 3 for triplets, and so on (at least 2).
#[derive(Clone, Copy, PartialEq, Eq, Debug, Hash, Structural)]
pub struct Denominator(u8);

impl View for Denominator {
    type V = int;

    closed spec fn view(&self) -> int {
        self.0 as int
    }
}

impl Denominator {
    #[verifier::type_invariant]
    closed spec fn inv(self) -> bool {
        2 <= self.0
    }

    pub fn value(self) -> (r: u8)
        ensures
            r == self@,
            2 <= r,
    {
        proof { use_type_invariant(&self); }
        self.0
    }

    /// The decimal text of this denominator.
    pub fn to_text(self) -> (r: String)
        ensures
            r@ == decimal_digits(self@ as nat),
    {
        decimal_text(self.0 as u64)
    }

    /// The plain (untupled) denominator.
    pub closed spec fn two() -> Denominator {
        Denominator(2)
    }

    pub proof fn lemma_two()
        ensures
            Denominator::two()@ == 2,
    {
    }

    /// The denominator of the given value.
    pub closed spec fn of_value(v: u8) -> Denominator {
        Denominator(v)
    }

    pub proof fn lemma_of_value(v: u8)
        ensures
            Denominator::of_value(v)@ == v,
    {
    }

    /// Denominators of one value are the same.
    pub proof fn lemma_view_eq(a: Denominator, b: Denominator)
        requires
            a@ == b@,
        ensures
            a == b,
    {
    }

    /// The denominator of the given value; `None` below 2.
    pub fn from_value(value: u8) -> (r: Option<Denominator>)
        ensures
            value < 2 ==> r is None,
            2 <= value ==> r is Some && r->Some_0@ == value,
    {
        if value < 2 {
            None
        } else {
            Some(Denominator(value))
        }
    }
}

impl Default for Denominator {
    fn default() -> (r: Denominator)
        ensures
            r@ == 2,
    {
        Denominator(2)
    }
}

/// Number of dots of a note, 0 ..= 7.
#[derive(Clone, Copy, PartialEq, Eq, Debug, Hash, Structural)]
pub struct Dots(u8);

impl View for Dots {
    type V = int;

    closed spec fn view(&self) -> int {
        self.0 as int
    }
}

impl Dots {
    #[verifier::type_invariant]
    closed spec fn inv(self) -> bool {
        self.0 <= 7
    }

    #[allow(non_snake_case)]
    pub fn ZERO() -> (r: Dots)
        ensures
            r@ == 0,
    {
        Dots(0)
    }

    #[allow(non_snake_case)]
    pub fn ONE() -> (r: Dots)
        ensures
            r@ == 1,
    {
        Dots(1)
    }

    #[allow(non_snake_case)]
    pub fn TWO() -> (r: Dots)
        ensures
            r@ == 2,
    {
        Dots(2)
    }

    #[allow(non_snake_case)]
    pub fn THREE() -> (r: Dots)
        ensures
            r@ == 3,
    {
        Dots(3)
    }

    #[allow(non_snake_case)]
    pub fn FOUR() -> (r: Dots)
        ensures
            r@ == 4,
    {
        Dots(4)
    }

    #[allow(non_snake_case)]
    pub fn FIVE() -> (r: Dots)
        ensures
            r@ == 5,
    {
        Dots(5)
    }

    #[allow(non_snake_case)]
    pub fn SIX() -> (r: Dots)
        ensures
            r@ == 6,
    {
        Dots(6)
    }

    #[allow(non_snake_case)]
    pub fn SEVEN() -> (r: Dots)
        ensures
            r@ == 7,
    {
        Dots(7)
    }

    pub fn value(self) -> (r: u8)
        ensures
            r == self@,
            r <= 7,
    {
        proof { use_type_invariant(&self); }
        self.0
    }

    /// The dot count of the given value; `None` above 7.
    pub fn from_value(value: u8) -> (r: Option<Dots>)
        ensures
            7 < value ==> r is None,
            value <= 7 ==> r is Some && r->Some_0@ == value,
    {
        if 7 < value {
            None
        } else {
            Some(Dots(value))
        }
    }
}

impl Default for Dots {
    fn default() -> (r: Dots)
        ensures
            r@ == 0,
    {
        Dots(0)
    }
}

/// The length of a note: note type, tuplet denominator and dots.
#[derive(Debug, Clone, Copy, Hash, PartialEq, Eq, Default, Structural)]
pub struct Duration {
    pub numerator: Numerator,
    pub denominator: Denominator,
    pub dots: Dots,
}

/// The tick length of a note type with dots in a tuplet: each dot adds half of
/// what the previous one added (truncated), and the total is scaled by
/// 2 / denominator (truncated).
pub open spec fn duration_ticks(n: Numerator, den: int, dots: int) -> int {
    let len = numerator_tick_len(n);
    (len + (len - len / (two_pow(dots as nat) as int))) * 2 / den
}

/// The tick length of a duration.
pub open spec fn tick_length_of(d: Duration) -> int {
    duration_ticks(d.numerator, d.denominator@, d.dots@)
}

proof fn lemma_two_pow_small(d: nat)
    requires
        d <= 7,
    ensures
        two_pow(d) == if d == 0 { 1nat } else if d == 1 { 2nat } else if d == 2 { 4nat } else if d == 3 { 8nat }
            else if d == 4 { 16nat } else if d == 5 { 32nat } else if d == 6 { 64nat } else { 128nat },
{
    reveal_with_fuel(two_pow, 8);
}

impl Duration {
    /// Ticks per quarter note.
    pub const TICK_RESOLUTION: i32 = 240;
    /// Ticks of two whole notes.
    pub const MAX_TICK_LENGTH: i32 = 1920;
    pub const MIN_DENOMINATOR: u8 = 2;
    pub const MAX_DENOMINATOR: u8 = 255;
    pub const MAX_DOT: u8 = 7;
    pub const MAX_NUMERATOR: u8 = 7;

    pub fn new(numerator: Numerator, denominator: Denominator, dots: Dots) -> (r: Duration)
        ensures
            r == (Duration { numerator, denominator, dots }),
    {
        Duration { numerator, denominator, dots }
    }

    /// The length of this duration in ticks.
    pub fn tick_length(self) -> (r: u32)
        ensures
            r == tick_length_of(self),
            r <= 1913,
    {
        let len: u32 = match self.numerator {
            Numerator::Whole => 960,
            Numerator::Half => 480,
            Numerator::Quarter => 240,
            Numerator::N8th => 120,
            Numerator::N16th => 60,
            Numerator::N32nd => 30,
            Numerator::N64th => 15,
            Numerator::N128th => 7,
        };
        let dots = self.dots.value();
        let den = self.denominator.value();
        let divisor: u32 = match dots {
            0 => 1,
            1 => 2,
            2 => 4,
            3 => 8,
            4 => 16,
            5 => 32,
            6 => 64,
            _ => 128,
        };
        proof { lemma_two_pow_small(dots as nat); }
        if dots == 0 && den == 2 {
            len
        } else {
            let dotted: u32 = len + (len - len / divisor);
            assert(dotted <= 1913);
            let d2: u32 = den as u32;
            assert((dotted * 2) as int / d2 as int <= dotted) by (nonlinear_arith)
                requires d2 >= 2, dotted <= 1913;
            (dotted * 2) / d2
        }
    }

    pub fn with_numerator(self, numerator: Numerator) -> (r: Duration)
        ensures
            r == (Duration { numerator, ..self }),
    {
        Self::new(numerator, self.denominator, self.dots)
    }

    pub fn with_denominator(self, denominator: Denominator) -> (r: Duration)
        ensures
            r == (Duration { denominator, ..self }),
    {
        Self::new(self.numerator, denominator, self.dots)
    }

    pub fn with_dots(self, dots: Dots) -> (r: Duration)
        ensures
            r == (Duration { dots, ..self }),
    {
        Self::new(self.numerator, self.denominator, dots)
    }

    /// The shorter of two durations; `other` when both are equally long.
    pub fn min(self, other: Duration) -> (r: Duration)
        ensures
            r == if tick_length_of(self) < tick_length_of(other) { self } else { other },
    {
        if self.tick_length() < other.tick_length() {
            self
        } else {
            other
        }
    }
}

} // verus!
