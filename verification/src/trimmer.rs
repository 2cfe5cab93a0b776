use vstd::prelude::*;
use crate::percent::PercentU16;
use crate::can_apply::CanApply;

verus! {

/// Number of adjustment levels in a trimmer.
pub const COUNT: usize = 4;

/// Tick adjustment of a note in four levels that are added up.
#[derive(Debug, Clone, Copy, PartialEq, Eq, Hash)]
pub struct Trimmer {
    values: [i16; 4],
    sum: i32,
}

/// The sum of the four levels.
pub open spec fn levels_sum(v: Seq<i16>) -> int {
    v[0] as int + v[1] as int + v[2] as int + v[3] as int
}

/// `x` clamped into `lo ..= hi`.
pub open spec fn clamp(x: int, lo: int, hi: int) -> int {
    if x < lo {
        lo
    } else if hi < x {
        hi
    } else {
        x
    }
}

/// The levels after `tick` is added from level `i` on: a level that would
/// leave the 16-bit range is set to the range's end and the rest is carried to
/// the next level; what is left after the last level is dropped.
pub open spec fn add_from_level(v: Seq<i16>, tick: int, i: nat) -> Seq<i16>
    decreases 4 - i,
{
    if i >= 4 {
        v
    } else {
        let t = v[i as int] as int + tick;
        if i16::MAX < t {
            add_from_level(v.update(i as int, i16::MAX), t - i16::MAX, i + 1)
        } else if t < i16::MIN {
            add_from_level(v.update(i as int, i16::MIN), t - i16::MIN, i + 1)
        } else {
            v.update(i as int, t as i16)
        }
    }
}



/// The sum of the levels from `i` on.
pub open spec fn levels_sum_from(v: Seq<i16>, i: int) -> int
    decreases 4 - i,
{
    if i >= 4 {
        0
    } else {
        v[i] as int + levels_sum_from(v, i + 1)
    }
}

proof fn lemma_add_from_level_sum(v: Seq<i16>, tick: int, i: nat)
    requires
        v.len() == 4,
        i <= 4,
    ensures
        add_from_level(v, tick, i).len() == 4,
        forall|j: int| 0 <= j < i ==> add_from_level(v, tick, i)[j] == v[j],
        levels_sum_from(add_from_level(v, tick, i), i as int)
            == clamp(levels_sum_from(v, i as int) + tick, (4 - i) * i16::MIN, (4 - i) * i16::MAX),
    decreases 4 - i,
{
    if i < 4 {
        let t = v[i as int] as int + tick;
        lemma_levels_sum_from_bounds(v, i as int + 1);
        let r = add_from_level(v, tick, i);
        let rv = levels_sum_from(v, i as int + 1);
        assert(levels_sum_from(v, i as int) == v[i as int] + rv);
        if i16::MAX < t {
            let w = v.update(i as int, i16::MAX);
            lemma_add_from_level_sum(w, t - i16::MAX, i + 1);
            lemma_levels_sum_from_same(w, v, i as int + 1);
            assert(r == add_from_level(w, t - i16::MAX, i + 1));
            assert(add_from_level(w, t - i16::MAX, i + 1)[i as int] == w[i as int]);
            assert forall|j: int| 0 <= j < i implies r[j] == v[j] by {
                assert(add_from_level(w, t - i16::MAX, i + 1)[j] == w[j]);
            }
            assert(r[i as int] == i16::MAX);
            assert(levels_sum_from(r, i as int) == r[i as int] + levels_sum_from(r, i as int + 1));
        } else if t < i16::MIN {
            let w = v.update(i as int, i16::MIN);
            lemma_add_from_level_sum(w, t - i16::MIN, i + 1);
            lemma_levels_sum_from_same(w, v, i as int + 1);
            assert(r == add_from_level(w, t - i16::MIN, i + 1));
            assert(add_from_level(w, t - i16::MIN, i + 1)[i as int] == w[i as int]);
            assert forall|j: int| 0 <= j < i implies r[j] == v[j] by {
                assert(add_from_level(w, t - i16::MIN, i + 1)[j] == w[j]);
            }
            assert(r[i as int] == i16::MIN);
            assert(levels_sum_from(r, i as int) == r[i as int] + levels_sum_from(r, i as int + 1));
        } else {
            let w = v.update(i as int, t as i16);
            lemma_levels_sum_from_same(w, v, i as int + 1);
            assert(r == w);
            assert(levels_sum_from(r, i as int) == r[i as int] + levels_sum_from(r, i as int + 1));
        }
    }
}

proof fn lemma_levels_sum_from_bounds(v: Seq<i16>, i: int)
    requires
        v.len() == 4,
        0 <= i <= 4,
    ensures
        (4 - i) * i16::MIN <= levels_sum_from(v, i) <= (4 - i) * i16::MAX,
    decreases 4 - i,
{
    if i < 4 {
        lemma_levels_sum_from_bounds(v, i + 1);
    }
}

proof fn lemma_levels_sum_from_same(w: Seq<i16>, v: Seq<i16>, i: int)
    requires
        w.len() == 4,
        v.len() == 4,
        0 <= i <= 4,
        forall|j: int| i <= j < 4 ==> w[j] == v[j],
    ensures
        levels_sum_from(w, i) == levels_sum_from(v, i),
    decreases 4 - i,
{
    if i < 4 {
        lemma_levels_sum_from_same(w, v, i + 1);
    }
}

/// Adding ticks to a trimmer adds them to its total, saturating at four times
/// the 16-bit range: the total after `added(tick)` is the old total plus
/// `tick`, clamped to `4 * i16::MIN ..= 4 * i16::MAX`.
pub proof fn law_added_saturates_sum(v: Seq<i16>, tick: int)
    requires
        v.len() == 4,
    ensures
        levels_sum(add_from_level(v, tick, 0)) == clamp(levels_sum(v) + tick, 4 * i16::MIN, 4 * i16::MAX),
{
    lemma_add_from_level_sum(v, tick, 0);
    let w = add_from_level(v, tick, 0);
    reveal_with_fuel(levels_sum_from, 5);
    assert(levels_sum_from(w, 0) == levels_sum(w));
    assert(levels_sum_from(v, 0) == levels_sum(v));
}

impl View for Trimmer {
    type V = Seq<i16>;

    closed spec fn view(&self) -> Seq<i16> {
        self.values@
    }
}

impl Trimmer {
    #[verifier::type_invariant]
    closed spec fn inv(self) -> bool {
        self.sum == levels_sum(self.values@)
    }

    /// A trimmer has four levels.
    pub proof fn lemma_len(t: Trimmer)
        ensures
            t@.len() == 4,
    {
    }

    /// The trimmer with every level zero.
    #[allow(non_snake_case)]
    pub fn ZERO() -> (r: Trimmer)
        ensures
            r@ == seq![0i16, 0i16, 0i16, 0i16],
    {
        Trimmer::new(0, 0, 0, 0)
    }

    pub fn new(value0: i16, value1: i16, value2: i16, value3: i16) -> (r: Trimmer)
        ensures
            r@ == seq![value0, value1, value2, value3],
    {
        let values = [value0, value1, value2, value3];
        proof { assert(values@ =~= seq![value0, value1, value2, value3]); }
        Trimmer { values, sum: value0 as i32 + value1 as i32 + value2 as i32 + value3 as i32 }
    }

    /// The trimmer of four levels; its total is their 32-bit sum.
    pub fn from_array(values: [i16; 4]) -> (r: Trimmer)
        ensures
            r@ == values@,
    {
        let s: i32 = values[0] as i32 + values[1] as i32 + values[2] as i32 + values[3] as i32;
        Trimmer { values, sum: s }
    }

    /// The four levels.
    pub closed spec fn levels(self) -> [i16; 4] {
        self.values
    }

    /// The trimmer of the levels that `f` makes of this trimmer's levels.
    pub fn updated<F>(self, f: F) -> (r: Trimmer)
        where F: FnOnce([i16; 4]) -> [i16; 4],
        requires
            call_requires(f, (self.levels(),)),
        ensures
            exists|v: [i16; 4]| call_ensures(f, (self.levels(),), v) && r@ == v@,
    {
        let values = f(self.values);
        Self::from_array(values)
    }

    /// The trimmer of the first four levels of a slice, which needs at least
    /// four; its total is their 32-bit sum.
    pub fn from_vec(values: &[i16]) -> (r: Trimmer)
        requires
            values@.len() >= 4,
        ensures
            r@ == values@.subrange(0, 4),
    {
        let a = [values[0], values[1], values[2], values[3]];
        proof { assert(a@ =~= values@.subrange(0, 4)); }
        Self::from_array(a)
    }

    pub fn to_array(&self) -> (r: [i16; 4])
        ensures
            r@ == self@,
    {
        let r = [self.values[0], self.values[1], self.values[2], self.values[3]];
        proof { assert(r@ =~= self.values@); }
        r
    }

    /// The level at `idx`, which must be below 4.
    pub fn value(&self, idx: usize) -> (r: i32)
        requires
            idx < 4,
        ensures
            r == self@[idx as int],
    {
        self.values[idx] as i32
    }

    pub fn values(&self) -> (r: &[i16])
        ensures
            r@ == self@,
    {
        self.values.as_slice()
    }

    pub fn to_vec(&self) -> (r: Vec<i16>)
        ensures
            r@ == self@,
    {
        let mut v: Vec<i16> = Vec::new();
        v.push(self.values[0]);
        v.push(self.values[1]);
        v.push(self.values[2]);
        v.push(self.values[3]);
        proof { assert(v@ =~= self.values@); }
        v
    }

    /// The total tick adjustment.
    pub fn sum(&self) -> (r: i32)
        ensures
            r == levels_sum(self@),
            4 * i16::MIN <= r <= 4 * i16::MAX,
    {
        proof { use_type_invariant(self); }
        self.sum
    }

    /// The trimmer with `tick` added: the first level takes what fits in 16
    /// bits and carries the rest to the next level, and so on. The first level
    /// plus `tick` must fit in 32 bits.
    pub fn added(self, tick: i32) -> (r: Trimmer)
        requires
            i32::MIN <= self@[0] + tick <= i32::MAX,
        ensures
            r@ == add_from_level(self@, tick as int, 0),
    {
        let mut values = self.values;
        let ghost tick0 = tick;
        let mut tick = tick;
        let mut i: usize = 0;
        let ghost orig = self.values@;
        while i < 4
            invariant_except_break
                i <= 4,
                values@.len() == 4,
                i > 0 ==> i32::MIN - i16::MIN <= tick <= i32::MAX - i16::MAX,
                i == 0 ==> i32::MIN <= values@[0] + tick <= i32::MAX,
                add_from_level(values@, tick as int, i as nat) == add_from_level(orig, tick0 as int, 0),
            ensures
                values@ == add_from_level(orig, tick0 as int, 0),
            decreases 4 - i,
        {
            let t: i32 = values[i] as i32 + tick;
            if (i16::MAX as i32) < t {
                tick = t - i16::MAX as i32;
                values[i] = i16::MAX;
            } else if t < (i16::MIN as i32) {
                tick = t - i16::MIN as i32;
                values[i] = i16::MIN;
            } else {
                values[i] = t as i16;
                break;
            }
            i = i + 1;
        }
        let s = values[0] as i32 + values[1] as i32 + values[2] as i32 + values[3] as i32;
        Trimmer { values, sum: s }
    }
}

impl Default for Trimmer {
    fn default() -> (r: Trimmer)
        ensures
            r@ == seq![0i16, 0i16, 0i16, 0i16],
    {
        Trimmer::ZERO()
    }
}

/// Rate adjustment of a note in four levels; the combined rate is kept
/// beside them.
#[derive(Debug, Clone, Copy, PartialEq, Eq)]
pub struct RateTrimmer {
    values: [PercentU16; 4],
    sum: PercentU16,
}

impl RateTrimmer {
    /// Every level at 100 %, combined 100 %.
    #[allow(non_snake_case)]
    pub fn ONE() -> (r: RateTrimmer)
        ensures
            forall|i: int| 0 <= i < 4 ==> (#[trigger] r.values_spec()[i])@ == 1000,
            r.values_spec().len() == 4,
            r.sum_spec()@ == 1000,
    {
        let h = PercentU16::HUNDRED();
        let values = [h, h, h, h];
        proof { assert(values@ =~= seq![h, h, h, h]); }
        RateTrimmer { values, sum: h }
    }

    /// The four levels.
    pub closed spec fn values_spec(self) -> Seq<PercentU16> {
        self.values@
    }

    /// The combined rate.
    pub closed spec fn sum_spec(self) -> PercentU16 {
        self.sum
    }

    /// The rate trimmer of four levels whose combined rate has been computed by
    /// the caller (the product of the four rates, clamped to 0 ..= 200 %).
    pub fn from_values_and_sum(values: [PercentU16; 4], sum: PercentU16) -> (r: RateTrimmer)
        ensures
            r.values_spec() == values@,
            r.sum_spec() == sum,
    {
        RateTrimmer { values, sum }
    }

    pub fn to_vec(&self) -> (r: Vec<PercentU16>)
        ensures
            r@ == self.values_spec(),
    {
        let mut v: Vec<PercentU16> = Vec::new();
        v.push(self.values[0]);
        v.push(self.values[1]);
        v.push(self.values[2]);
        v.push(self.values[3]);
        proof { assert(v@ =~= self.values@); }
        v
    }

    /// The level at `idx`, which must be below 4.
    pub fn value(&self, idx: usize) -> (r: PercentU16)
        requires
            idx < 4,
        ensures
            r == self.values_spec()[idx as int],
    {
        self.values[idx]
    }

    pub fn values(&self) -> (r: &[PercentU16])
        ensures
            r@ == self.values_spec(),
    {
        self.values.as_slice()
    }

    /// The combined rate.
    pub fn sum(&self) -> (r: PercentU16)
        ensures
            r == self.sum_spec(),
    {
        self.sum
    }
}

impl CanApply<u32> for RateTrimmer {
    open spec fn applied(self, value: u32) -> u32 {
        self.sum_spec().applied(value)
    }

    fn apply(self, value: u32) -> (r: u32) {
        self.sum.apply(value)
    }
}

impl Default for RateTrimmer {
    fn default() -> (r: RateTrimmer)
        ensures
            r.sum_spec()@ == 1000,
    {
        RateTrimmer::ONE()
    }
}

} // verus!
