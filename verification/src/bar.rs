use vstd::prelude::*;
use crate::key::Key;
use crate::rhythm::Rhythm;
use crate::note::TickError;
use crate::have_start_tick::{HaveBaseStartTick, HaveStartTick};

verus! {

/// Number of a variation ending (1 ..= 4), as in "1." and "2." endings.
#[derive(Debug, Clone, Copy, PartialEq, Eq, Structural)]
pub enum VarIndex {
    VI1,
    VI2,
    VI3,
    VI4,
}

/// A variation number outside 1 ..= 4.
#[derive(Debug, Clone, Copy, PartialEq, Eq)]
pub enum VarIndexError {
    InvalidIndex(u8),
}

/// The number of a variation ending.
pub open spec fn var_index_value(v: VarIndex) -> int {
    match v {
        VarIndex::VI1 => 1,
        VarIndex::VI2 => 2,
        VarIndex::VI3 => 3,
        VarIndex::VI4 => 4,
    }
}

/// The variation ending of a number, if it is in 1 ..= 4.
pub open spec fn var_index_of(v: int) -> Option<VarIndex> {
    if v == 1 {
        Some(VarIndex::VI1)
    } else if v == 2 {
        Some(VarIndex::VI2)
    } else if v == 3 {
        Some(VarIndex::VI3)
    } else if v == 4 {
        Some(VarIndex::VI4)
    } else {
        None
    }
}

/// The result of `VarIndex::from_value` for a number.
pub open spec fn var_index_result(r: Result<VarIndex, VarIndexError>, v: u8) -> bool {
    match var_index_of(v as int) {
        Some(i) => r == Ok::<VarIndex, VarIndexError>(i),
        None => r == Err::<VarIndex, VarIndexError>(VarIndexError::InvalidIndex(v)),
    }
}

impl VarIndex {
    pub fn from_value(value: u8) -> (r: Result<VarIndex, VarIndexError>)
        ensures
            var_index_result(r, value),
    {
        match value {
            1 => Ok(VarIndex::VI1),
            2 => Ok(VarIndex::VI2),
            3 => Ok(VarIndex::VI3),
            4 => Ok(VarIndex::VI4),
            _ => Err(VarIndexError::InvalidIndex(value)),
        }
    }

    /// The variation index of a number in 1 ..= 4.
    pub fn from(value: u8) -> (r: VarIndex)
        requires
            1 <= value <= 4,
        ensures
            var_index_value(r) == value,
    {
        match Self::from_value(value) {
            Ok(v) => v,
            Err(_) => {
                proof { assert(false); }
                VarIndex::VI1
            },
        }
    }

    pub fn value(self) -> (r: u8)
        ensures
            r == var_index_value(self),
    {
        match self {
            VarIndex::VI1 => 1,
            VarIndex::VI2 => 2,
            VarIndex::VI3 => 3,
            VarIndex::VI4 => 4,
        }
    }

    /// The following variation number; fails after 4.
    pub fn next(self) -> (r: Result<VarIndex, VarIndexError>)
        ensures
            var_index_result(r, (var_index_value(self) + 1) as u8),
    {
        Self::from_value(self.value() + 1)
    }

    /// The preceding variation number; fails before 1.
    pub fn prev(self) -> (r: Result<VarIndex, VarIndexError>)
        ensures
            var_index_result(r, (var_index_value(self) - 1) as u8),
    {
        Self::from_value(self.value() - 1)
    }

    /// The repeat symbol of this variation ending.
    pub fn to_repeat(self) -> (r: Repeat)
        ensures
            r == var_repeat(self),
    {
        match self {
            VarIndex::VI1 => Repeat::Var1,
            VarIndex::VI2 => Repeat::Var2,
            VarIndex::VI3 => Repeat::Var3,
            VarIndex::VI4 => Repeat::Var4,
        }
    }
}

/// The repeat symbol of a variation ending.
pub open spec fn var_repeat(v: VarIndex) -> Repeat {
    match v {
        VarIndex::VI1 => Repeat::Var1,
        VarIndex::VI2 => Repeat::Var2,
        VarIndex::VI3 => Repeat::Var3,
        VarIndex::VI4 => Repeat::Var4,
    }
}

/// Repeat and navigation symbols of a bar.
#[derive(Debug, Clone, Copy, PartialEq, Eq, Hash, Structural)]
pub enum Repeat {
    /// Repeat start `|:`.
    Start,
    /// Repeat end `:|`.
    End,
    /// Da capo: back to the beginning.
    Dc,
    /// End of the piece after a jump back.
    Fine,
    /// Dal segno: back to the segno sign.
    Ds,
    /// Target of a dal segno.
    Segno,
    /// Coda sign: after a jump back, go from the first to the second.
    Coda,
    Var1,
    Var2,
    Var3,
    Var4,
}

/// The bit of a repeat symbol in a repeat set (declaration order).
pub open spec fn repeat_bit(r: Repeat) -> int {
    match r {
        Repeat::Start => 0,
        Repeat::End => 1,
        Repeat::Dc => 2,
        Repeat::Fine => 3,
        Repeat::Ds => 4,
        Repeat::Segno => 5,
        Repeat::Coda => 6,
        Repeat::Var1 => 7,
        Repeat::Var2 => 8,
        Repeat::Var3 => 9,
        Repeat::Var4 => 10,
    }
}

/// All repeat symbols in declaration order.
pub open spec fn all_repeats() -> Seq<Repeat> {
    seq![Repeat::Start, Repeat::End, Repeat::Dc, Repeat::Fine, Repeat::Ds, Repeat::Segno,
        Repeat::Coda, Repeat::Var1, Repeat::Var2, Repeat::Var3, Repeat::Var4]
}

impl Repeat {
    fn bit(self) -> (r: u16)
        ensures
            r == repeat_bit(self),
    {
        match self {
            Repeat::Start => 0,
            Repeat::End => 1,
            Repeat::Dc => 2,
            Repeat::Fine => 3,
            Repeat::Ds => 4,
            Repeat::Segno => 5,
            Repeat::Coda => 6,
            Repeat::Var1 => 7,
            Repeat::Var2 => 8,
            Repeat::Var3 => 9,
            Repeat::Var4 => 10,
        }
    }

    /// The text of the symbol as printed in a score.
    pub fn text(self) -> (r: &'static str)
        ensures
            r@ == match self {
                Repeat::Start => "|:"@,
                Repeat::End => ":|"@,
                Repeat::Dc => "D.C."@,
                Repeat::Fine => "Fine"@,
                Repeat::Ds => "D.S."@,
                Repeat::Segno => "Segno"@,
                Repeat::Coda => "Coda"@,
                Repeat::Var1 => "Var1"@,
                Repeat::Var2 => "Var2"@,
                Repeat::Var3 => "Var3"@,
                Repeat::Var4 => "Var4"@,
            },
    {
        match self {
            Repeat::Start => "|:",
            Repeat::End => ":|",
            Repeat::Dc => "D.C.",
            Repeat::Fine => "Fine",
            Repeat::Ds => "D.S.",
            Repeat::Segno => "Segno",
            Repeat::Coda => "Coda",
            Repeat::Var1 => "Var1",
            Repeat::Var2 => "Var2",
            Repeat::Var3 => "Var3",
            Repeat::Var4 => "Var4",
        }
    }
}

/// Whether bit `i` of `v` is set.
pub open spec fn has_bit(v: u16, i: int) -> bool {
    (v >> (i as u16)) & 1 == 1
}

/// The symbols that may not be added to a set that already holds any of the
/// returned symbols.
pub open spec fn dislike(r: Repeat) -> Set<Repeat> {
    let vars = set![Repeat::Var1, Repeat::Var2, Repeat::Var3, Repeat::Var4];
    match r {
        Repeat::Start => vars.insert(Repeat::Dc).insert(Repeat::Ds),
        Repeat::End => vars,
        Repeat::Dc => vars.insert(Repeat::Start).insert(Repeat::Ds).insert(Repeat::Segno),
        Repeat::Fine => Set::empty(),
        Repeat::Ds => vars.insert(Repeat::Start),
        Repeat::Segno => Set::empty(),
        Repeat::Coda => Set::empty(),
        Repeat::Var1 => vars.remove(Repeat::Var1).insert(Repeat::Start).insert(Repeat::End).insert(Repeat::Dc).insert(Repeat::Ds).insert(Repeat::Segno),
        Repeat::Var2 => vars.remove(Repeat::Var2).insert(Repeat::Start).insert(Repeat::End).insert(Repeat::Dc).insert(Repeat::Ds).insert(Repeat::Segno),
        Repeat::Var3 => vars.remove(Repeat::Var3).insert(Repeat::Start).insert(Repeat::End).insert(Repeat::Dc).insert(Repeat::Ds).insert(Repeat::Segno),
        Repeat::Var4 => vars.remove(Repeat::Var4).insert(Repeat::Start).insert(Repeat::End).insert(Repeat::Dc).insert(Repeat::Ds).insert(Repeat::Segno),
    }
}

/// The set of repeat symbols of a bar.
#[derive(Debug, Clone, Copy, PartialEq, Eq, Default, Structural)]
pub struct RepeatSet {
    value: u16,
}

impl View for RepeatSet {
    type V = Set<Repeat>;

    closed spec fn view(&self) -> Set<Repeat> {
        Set::new(|r: Repeat| has_bit(self.value, repeat_bit(r)))
    }
}

proof fn lemma_bit_or(v: u16, i: u16, j: u16)
    requires
        i < 16,
        j < 16,
    ensures
        ((v | (1u16 << i)) >> j) & 1 == if i == j { 1u16 } else { (v >> j) & 1 },
{
    assert(((v | (1u16 << i)) >> j) & 1 == if i == j { 1u16 } else { (v >> j) & 1 }) by (bit_vector)
        requires i < 16, j < 16;
}

proof fn lemma_bit_clear(v: u16, i: u16, j: u16)
    requires
        i < 16,
        j < 16,
    ensures
        ((v & !(1u16 << i)) >> j) & 1 == if i == j { 0u16 } else { (v >> j) & 1 },
{
    assert(((v & !(1u16 << i)) >> j) & 1 == if i == j { 0u16 } else { (v >> j) & 1 }) by (bit_vector)
        requires i < 16, j < 16;
}

proof fn lemma_bit_and(a: u16, b: u16, j: u16)
    requires
        j < 16,
    ensures
        (((a & b) >> j) & 1 == 1) <==> ((a >> j) & 1 == 1 && (b >> j) & 1 == 1),
{
    assert((((a & b) >> j) & 1 == 1) <==> ((a >> j) & 1 == 1 && (b >> j) & 1 == 1)) by (bit_vector)
        requires j < 16;
}

proof fn lemma_low_bits_nonzero(v: u16)
    requires
        v < 2048,
    ensures
        v != 0 <==> (has_bit(v, 0) || has_bit(v, 1) || has_bit(v, 2) || has_bit(v, 3) || has_bit(v, 4)
            || has_bit(v, 5) || has_bit(v, 6) || has_bit(v, 7) || has_bit(v, 8) || has_bit(v, 9) || has_bit(v, 10)),
{
    assert(v != 0 <==> ((v >> 0u16) & 1 == 1 || (v >> 1u16) & 1 == 1 || (v >> 2u16) & 1 == 1 || (v >> 3u16) & 1 == 1
        || (v >> 4u16) & 1 == 1 || (v >> 5u16) & 1 == 1 || (v >> 6u16) & 1 == 1 || (v >> 7u16) & 1 == 1
        || (v >> 8u16) & 1 == 1 || (v >> 9u16) & 1 == 1 || (v >> 10u16) & 1 == 1)) by (bit_vector)
        requires v < 2048;
}

proof fn lemma_or_below(a: u16, i: u16)
    requires
        a < 2048,
        i < 11,
    ensures
        (a | (1u16 << i)) < 2048,
        (a & !(1u16 << i)) < 2048,
{
    assert((a | (1u16 << i)) < 2048 && (a & !(1u16 << i)) < 2048) by (bit_vector)
        requires a < 2048, i < 11;
}

proof fn lemma_and_below(a: u16, b: u16)
    requires
        a < 2048,
    ensures
        (a & b) < 2048,
{
    assert((a & b) < 2048) by (bit_vector)
        requires a < 2048;
}

impl RepeatSet {
    #[verifier::type_invariant]
    closed spec fn inv(self) -> bool {
        self.value < 2048
    }

    /// The bits of this set.
    pub closed spec fn bits(self) -> u16 {
        self.value
    }

    /// The empty set.
    #[allow(non_snake_case)]
    pub fn EMPTY() -> (r: RepeatSet)
        ensures
            r@ == Set::<Repeat>::empty(),
            r.bits() == 0,
    {
        let r = RepeatSet { value: 0 };
        proof {
            assert forall|x: Repeat| !r@.contains(x) by {
                let b = repeat_bit(x) as u16;
                assert((0u16 >> b) & 1 == 0) by (bit_vector);
            }
            assert(r@ =~= Set::<Repeat>::empty());
        }
        r
    }

    /// The bits of this set: bit `i` stands for the `i`-th symbol of `Repeat`.
    pub fn to_bits(self) -> (r: u16)
        ensures
            r == self.bits(),
            forall|x: Repeat| self@.contains(x) <==> has_bit(r, repeat_bit(x)),
    {
        self.value
    }

    /// The set whose members are the set bits 0 ..= 10 of `bits` (other bits
    /// stand for no symbol and are dropped).
    pub fn from_bits(bits: u16) -> (r: RepeatSet)
        ensures
            forall|x: Repeat| r@.contains(x) <==> has_bit(bits, repeat_bit(x)),
    {
        let v: u16 = bits & 2047;
        proof {
            assert(v < 2048) by (bit_vector)
                requires v == bits & 2047u16;
            assert forall|j: u16| j < 11 implies ((v >> j) & 1) == ((bits >> j) & 1) by {
                assert(((v >> j) & 1) == ((bits >> j) & 1)) by (bit_vector)
                    requires v == bits & 2047u16, j < 11;
            }
        }
        let r = RepeatSet { value: v };
        proof {
            assert forall|x: Repeat| r@.contains(x) <==> has_bit(bits, repeat_bit(x)) by {
                let j = repeat_bit(x) as u16;
                assert(((v >> j) & 1) == ((bits >> j) & 1));
            }
        }
        r
    }

    /// Whether this set holds symbol `r`.
    pub fn contains(self, r: Repeat) -> (b: bool)
        ensures
            b == self@.contains(r),
    {
        let i = r.bit();
        proof {
            let v = self.value;
            assert((v >> i) & 1 == 0 || (v >> i) & 1 == 1) by (bit_vector);
        }
        (self.value >> i) & 1 == 1
    }

    /// This set with symbol `r` added, unless the set holds a symbol that
    /// conflicts with it: then the conflicting symbols.
    pub fn try_add(self, r: Repeat) -> (res: Result<RepeatSet, RepeatSet>)
        ensures
            ({
                let c = dislike(r).intersect(self@);
                if c.is_empty() {
                    res is Ok && res->Ok_0@ == self@.insert(r)
                } else {
                    res is Err && res->Err_0@ == c
                }
            }),
    {
        proof { use_type_invariant(&self); }
        let mask: u16 = match r {
            Repeat::Start => 0b111_1001_0100,
            Repeat::End => 0b111_1000_0000,
            Repeat::Dc => 0b111_1011_0001,
            Repeat::Fine => 0,
            Repeat::Ds => 0b111_1000_0001,
            Repeat::Segno => 0,
            Repeat::Coda => 0,
            Repeat::Var1 => 0b111_0011_0111,
            Repeat::Var2 => 0b110_1011_0111,
            Repeat::Var3 => 0b101_1011_0111,
            Repeat::Var4 => 0b011_1011_0111,
        };
        let ghost m = mask;
        proof {
            assert forall|x: Repeat| dislike(r).contains(x) <==> has_bit(m, repeat_bit(x)) by {
                lemma_mask_bits(r, x, m);
            }
        }
        let d: u16 = self.value & mask;
        proof { lemma_and_below(self.value, mask); }
        let ghost c = dislike(r).intersect(self@);
        let dd = RepeatSet { value: d };
        proof {
            assert forall|x: Repeat| dd@.contains(x) <==> c.contains(x) by {
                lemma_bit_and(self.value, mask, repeat_bit(x) as u16);
                assert(dislike(r).contains(x) <==> has_bit(m, repeat_bit(x)));
            }
            assert(dd@ =~= c);
            lemma_low_bits_nonzero(d);
            if d != 0 {
                let x = if has_bit(d, 0) { Repeat::Start } else if has_bit(d, 1) { Repeat::End } else if has_bit(d, 2) { Repeat::Dc }
                    else if has_bit(d, 3) { Repeat::Fine } else if has_bit(d, 4) { Repeat::Ds } else if has_bit(d, 5) { Repeat::Segno }
                    else if has_bit(d, 6) { Repeat::Coda } else if has_bit(d, 7) { Repeat::Var1 } else if has_bit(d, 8) { Repeat::Var2 }
                    else if has_bit(d, 9) { Repeat::Var3 } else { Repeat::Var4 };
                assert(dd@.contains(x));
            } else {
                assert forall|x: Repeat| !dd@.contains(x) by {
                    let b = repeat_bit(x) as u16;
                    assert((0u16 >> b) & 1 == 0) by (bit_vector);
                }
                assert(c =~= Set::<Repeat>::empty());
            }
        }
        if d == 0 {
            let i = r.bit();
            proof { lemma_or_below(self.value, i); }
            let n = RepeatSet { value: self.value | (1u16 << i) };
            proof {
                assert forall|x: Repeat| n@.contains(x) <==> self@.insert(r).contains(x) by {
                    lemma_bit_or(self.value, i, repeat_bit(x) as u16);
                }
                assert(n@ =~= self@.insert(r));
            }
            Ok(n)
        } else {
            Err(dd)
        }
    }

    /// This set without symbol `r`.
    pub fn remove(self, r: Repeat) -> (res: RepeatSet)
        ensures
            res@ == self@.remove(r),
    {
        proof { use_type_invariant(&self); }
        let i = r.bit();
        proof { lemma_or_below(self.value, i); }
        let n = RepeatSet { value: self.value & !(1u16 << i) };
        proof {
            assert forall|x: Repeat| n@.contains(x) <==> self@.remove(r).contains(x) by {
                lemma_bit_clear(self.value, i, repeat_bit(x) as u16);
            }
            assert(n@ =~= self@.remove(r));
        }
        n
    }

    /// The variation ending in this set (the lowest when several).
    pub fn region_index(self) -> (r: Option<VarIndex>)
        ensures
            r == region_index_of(self@),
    {
        if self.contains(Repeat::Var1) {
            Some(VarIndex::VI1)
        } else if self.contains(Repeat::Var2) {
            Some(VarIndex::VI2)
        } else if self.contains(Repeat::Var3) {
            Some(VarIndex::VI3)
        } else if self.contains(Repeat::Var4) {
            Some(VarIndex::VI4)
        } else {
            None
        }
    }

    /// This set without variation endings.
    pub fn remove_resions(self) -> (r: RepeatSet)
        ensures
            r@ == self@.remove(Repeat::Var1).remove(Repeat::Var2).remove(Repeat::Var3).remove(Repeat::Var4),
    {
        self.remove(Repeat::Var1).remove(Repeat::Var2).remove(Repeat::Var3).remove(Repeat::Var4)
    }

    /// The number of symbols in this set.
    pub fn len(self) -> (r: usize)
        ensures
            r == all_repeats().filter(|x: Repeat| self@.contains(x)).len(),
    {
        let all: [Repeat; 11] = [Repeat::Start, Repeat::End, Repeat::Dc, Repeat::Fine, Repeat::Ds, Repeat::Segno,
            Repeat::Coda, Repeat::Var1, Repeat::Var2, Repeat::Var3, Repeat::Var4];
        proof { assert(all@ =~= all_repeats()); }
        let mut n: usize = 0;
        let mut i: usize = 0;
        while i < 11
            invariant
                i <= 11,
                all@ == all_repeats(),
                n == all@.take(i as int).filter(|x: Repeat| self@.contains(x)).len(),
                n <= i,
            decreases 11 - i,
        {
            proof {
                reveal(Seq::filter);
                assert(all@.take(i + 1).drop_last() =~= all@.take(i as int));
                assert(all@.take(i + 1).last() == all@[i as int]);
            }
            if self.contains(all[i]) {
                n = n + 1;
            }
            i = i + 1;
        }
        proof { assert(all@.take(11) =~= all@); }
        n
    }

    /// Whether this set has no symbol.
    pub fn is_empty(self) -> (r: bool)
        ensures
            r == (self@ == Set::<Repeat>::empty()),
    {
        proof {
            use_type_invariant(&self);
            lemma_low_bits_nonzero(self.value);
            if self.value != 0 {
                let d = self.value;
                let x = if has_bit(d, 0) { Repeat::Start } else if has_bit(d, 1) { Repeat::End } else if has_bit(d, 2) { Repeat::Dc }
                    else if has_bit(d, 3) { Repeat::Fine } else if has_bit(d, 4) { Repeat::Ds } else if has_bit(d, 5) { Repeat::Segno }
                    else if has_bit(d, 6) { Repeat::Coda } else if has_bit(d, 7) { Repeat::Var1 } else if has_bit(d, 8) { Repeat::Var2 }
                    else if has_bit(d, 9) { Repeat::Var3 } else { Repeat::Var4 };
                assert(self@.contains(x));
            } else {
                assert forall|x: Repeat| !self@.contains(x) by {
                    let b = repeat_bit(x) as u16;
                    assert((0u16 >> b) & 1 == 0) by (bit_vector);
                }
                assert(self@ =~= Set::<Repeat>::empty());
            }
        }
        self.value == 0
    }
}

proof fn lemma_mask_bits(r: Repeat, x: Repeat, m: u16)
    requires
        m == match r {
            Repeat::Start => 0b111_1001_0100u16,
            Repeat::End => 0b111_1000_0000u16,
            Repeat::Dc => 0b111_1011_0001u16,
            Repeat::Fine => 0u16,
            Repeat::Ds => 0b111_1000_0001u16,
            Repeat::Segno => 0u16,
            Repeat::Coda => 0u16,
            Repeat::Var1 => 0b111_0011_0111u16,
            Repeat::Var2 => 0b110_1011_0111u16,
            Repeat::Var3 => 0b101_1011_0111u16,
            Repeat::Var4 => 0b011_1011_0111u16,
        },
    ensures
        dislike(r).contains(x) <==> has_bit(m, repeat_bit(x)),
{
    let b = repeat_bit(x) as u16;
    assert(b < 11);
    assert(has_bit(m, repeat_bit(x)) == ((m >> b) & 1 == 1));
    assert((m >> b) & 1 == 1 <==> (
        (m == 0b111_1001_0100u16 && (b == 2 || b == 4 || b == 7 || b == 8 || b == 9 || b == 10))
        || (m == 0b111_1000_0000u16 && (b == 7 || b == 8 || b == 9 || b == 10))
        || (m == 0b111_1011_0001u16 && (b == 0 || b == 4 || b == 5 || b == 7 || b == 8 || b == 9 || b == 10))
        || (m == 0b111_1000_0001u16 && (b == 0 || b == 7 || b == 8 || b == 9 || b == 10))
        || (m == 0b111_0011_0111u16 && (b == 0 || b == 1 || b == 2 || b == 4 || b == 5 || b == 8 || b == 9 || b == 10))
        || (m == 0b110_1011_0111u16 && (b == 0 || b == 1 || b == 2 || b == 4 || b == 5 || b == 7 || b == 9 || b == 10))
        || (m == 0b101_1011_0111u16 && (b == 0 || b == 1 || b == 2 || b == 4 || b == 5 || b == 7 || b == 8 || b == 10))
        || (m == 0b011_1011_0111u16 && (b == 0 || b == 1 || b == 2 || b == 4 || b == 5 || b == 7 || b == 8 || b == 9))
    )) by (bit_vector)
        requires
            b < 11,
            m == 0b111_1001_0100u16 || m == 0b111_1000_0000u16 || m == 0b111_1011_0001u16 || m == 0u16
                || m == 0b111_1000_0001u16 || m == 0b111_0011_0111u16 || m == 0b110_1011_0111u16
                || m == 0b101_1011_0111u16 || m == 0b011_1011_0111u16;
}

/// The variation ending in a set of symbols, the lowest when several.
pub open spec fn region_index_of(s: Set<Repeat>) -> Option<VarIndex> {
    if s.contains(Repeat::Var1) {
        Some(VarIndex::VI1)
    } else if s.contains(Repeat::Var2) {
        Some(VarIndex::VI2)
    } else if s.contains(Repeat::Var3) {
        Some(VarIndex::VI3)
    } else if s.contains(Repeat::Var4) {
        Some(VarIndex::VI4)
    } else {
        None
    }
}

/// A bar: where it starts, optional time and key signature changes, and its
/// repeat symbols.
#[derive(Debug, Clone, Copy, PartialEq, Eq, Structural)]
pub struct Bar {
    pub start_tick: u32,
    pub rhythm: Option<Rhythm>,
    pub key: Option<Key>,
    pub repeats: RepeatSet,
}

impl Bar {
    pub fn new(start_tick: u32, rhythm: Option<Rhythm>, key: Option<Key>, repeats: RepeatSet) -> (r: Bar)
        ensures
            r == (Bar { start_tick, rhythm, key, repeats }),
    {
        Bar { start_tick, rhythm, key, repeats }
    }

    /// This bar moved by `tick_delta` ticks, cut to 32 bits.
    pub fn drag(&self, tick_delta: i32) -> (r: Bar)
        ensures
            r == (Bar { start_tick: (self.start_tick + tick_delta) as u32, ..*self }),
    {
        Bar { start_tick: ((self.start_tick as i64) + tick_delta as i64) as u32, ..*self }
    }

    /// This bar moved by `tick_delta` ticks; fails when the tick would be negative.
    pub fn with_tick_added(&self, tick_delta: i32) -> (r: Result<Bar, TickError>)
        ensures
            self.start_tick + tick_delta < 0 ==> r == Err::<Bar, TickError>(TickError::Minus),
            self.start_tick + tick_delta >= 0 ==> r == Ok::<Bar, TickError>(Bar {
                start_tick: (self.start_tick + tick_delta) as u32, ..*self }),
    {
        let tick: i64 = (self.start_tick as i64) + tick_delta as i64;
        if tick < 0 {
            Err(TickError::Minus)
        } else {
            Ok(Bar { start_tick: tick as u32, ..*self })
        }
    }
}

impl HaveBaseStartTick for Bar {
    open spec fn base_start_tick_spec(&self) -> u32 {
        self.start_tick
    }

    fn base_start_tick(&self) -> (r: u32) {
        self.start_tick
    }
}

impl HaveStartTick for Bar {
    open spec fn start_tick_spec(&self) -> u32 {
        self.start_tick
    }

    fn start_tick(&self) -> (r: u32) {
        self.start_tick
    }
}

} // verus!
