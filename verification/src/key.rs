use vstd::prelude::*;
use crate::solfa::Solfa;

verus! {

/// Key signature: the number of sharps (positive) or flats (negative).
#[derive(Debug, PartialEq, Eq, Copy, Clone, Hash, Structural)]
pub struct Key(i8);

/// Position of a solfa in the order in which sharps are added (F C G D A E B).
pub open spec fn sharp_rank(s: Solfa) -> int {
    match s {
        Solfa::F => 0,
        Solfa::C => 1,
        Solfa::G => 2,
        Solfa::D => 3,
        Solfa::A => 4,
        Solfa::E => 5,
        Solfa::B => 6,
    }
}

/// Position of a solfa in the order in which flats are added (B E A D G C F).
pub open spec fn flat_rank(s: Solfa) -> int {
    match s {
        Solfa::B => 0,
        Solfa::E => 1,
        Solfa::A => 2,
        Solfa::D => 3,
        Solfa::G => 4,
        Solfa::C => 5,
        Solfa::F => 6,
    }
}

/// Whether the key signature with the given offset alters solfa `s`;
/// `None` for offsets that name no key signature (beyond seven accidentals).
pub open spec fn key_alters(offset: int, s: Solfa) -> Option<bool> {
    if offset < -7 || 7 < offset {
        None
    } else if offset >= 0 {
        Some(sharp_rank(s) < offset)
    } else {
        Some(flat_rank(s) < -offset)
    }
}

impl View for Key {
    type V = int;

    closed spec fn view(&self) -> int {
        self.0 as int
    }
}

impl Key {
    #[allow(non_snake_case)]
    pub fn NONE() -> (r: Key)
        ensures
            r@ == 0,
    {
        Key(0)
    }
    #[allow(non_snake_case)]
    pub fn SHARP_1() -> (r: Key)
        ensures
            r@ == 1,
    {
        Key(1)
    }
    #[allow(non_snake_case)]
    pub fn SHARP_2() -> (r: Key)
        ensures
            r@ == 2,
    {
        Key(2)
    }
    #[allow(non_snake_case)]
    pub fn SHARP_3() -> (r: Key)
        ensures
            r@ == 3,
    {
        Key(3)
    }
    #[allow(non_snake_case)]
    pub fn SHARP_4() -> (r: Key)
        ensures
            r@ == 4,
    {
        Key(4)
    }
    #[allow(non_snake_case)]
    pub fn SHARP_5() -> (r: Key)
        ensures
            r@ == 5,
    {
        Key(5)
    }
    #[allow(non_snake_case)]
    pub fn SHARP_6() -> (r: Key)
        ensures
            r@ == 6,
    {
        Key(6)
    }
    #[allow(non_snake_case)]
    pub fn SHARP_7() -> (r: Key)
        ensures
            r@ == 7,
    {
        Key(7)
    }
    #[allow(non_snake_case)]
    pub fn FLAT_1() -> (r: Key)
        ensures
            r@ == -1,
    {
        Key(-1)
    }
    #[allow(non_snake_case)]
    pub fn FLAT_2() -> (r: Key)
        ensures
            r@ == -2,
    {
        Key(-2)
    }
    #[allow(non_snake_case)]
    pub fn FLAT_3() -> (r: Key)
        ensures
            r@ == -3,
    {
        Key(-3)
    }
    #[allow(non_snake_case)]
    pub fn FLAT_4() -> (r: Key)
        ensures
            r@ == -4,
    {
        Key(-4)
    }
    #[allow(non_snake_case)]
    pub fn FLAT_5() -> (r: Key)
        ensures
            r@ == -5,
    {
        Key(-5)
    }
    #[allow(non_snake_case)]
    pub fn FLAT_6() -> (r: Key)
        ensures
            r@ == -6,
    {
        Key(-6)
    }
    #[allow(non_snake_case)]
    pub fn FLAT_7() -> (r: Key)
        ensures
            r@ == -7,
    {
        Key(-7)
    }

    /// The key signature with the given offset. Offsets beyond seven accidentals
    /// can be held (as they can be read from a file) but alter no note.
    pub fn from_offset(offset: i8) -> (r: Key)
        ensures
            r@ == offset,
    {
        Key(offset)
    }

    /// The number of sharps (positive) or flats (negative).
    pub fn offset(self) -> (r: i8)
        ensures
            r == self@,
    {
        self.0
    }

    pub fn is_flat(self) -> (r: bool)
        ensures
            r == (self@ < 0),
    {
        self.0 < 0
    }

    pub fn is_sharp(self) -> (r: bool)
        ensures
            r == (0 < self@),
    {
        0 < self.0
    }

    /// Whether this key signature alters solfa `s`; `None` when this key is no
    /// key signature of up to seven accidentals.
    pub fn alters(self, s: Solfa) -> (r: Option<bool>)
        ensures
            r == key_alters(self@, s),
    {
        if self.0 < -7 || 7 < self.0 {
            None
        } else if self.0 >= 0 {
            let rank: i8 = match s {
                Solfa::F => 0,
                Solfa::C => 1,
                Solfa::G => 2,
                Solfa::D => 3,
                Solfa::A => 4,
                Solfa::E => 5,
                Solfa::B => 6,
            };
            Some(rank < self.0)
        } else {
            let rank: i8 = match s {
                Solfa::B => 0,
                Solfa::E => 1,
                Solfa::A => 2,
                Solfa::D => 3,
                Solfa::G => 4,
                Solfa::C => 5,
                Solfa::F => 6,
            };
            Some(rank < -self.0)
        }
    }

    /// The solfas that this key signature alters, in the order in which the
    /// accidentals are written; `None` when this key is no key signature of up to
    /// seven accidentals.
    pub fn solfas(self) -> (r: Option<Vec<Solfa>>)
        ensures
            r is None <==> key_alters(self@, Solfa::C) is None,
            r matches Some(v) ==> (forall|s: Solfa| v@.contains(s) <==> key_alters(self@, s) == Some(true)),
            r matches Some(v) ==> v@ == if self@ >= 0 { sharps_in_order().take(self@) } else { flats_in_order().take(-self@) },
    {
        if self.0 < -7 || 7 < self.0 {
            return None;
        }
        let order: [Solfa; 7] = if self.0 >= 0 {
            [Solfa::F, Solfa::C, Solfa::G, Solfa::D, Solfa::A, Solfa::E, Solfa::B]
        } else {
            [Solfa::B, Solfa::E, Solfa::A, Solfa::D, Solfa::G, Solfa::C, Solfa::F]
        };
        let n: i8 = if self.0 >= 0 { self.0 } else { -self.0 };
        let mut v: Vec<Solfa> = Vec::new();
        let mut i: usize = 0;
        while i < n as usize
            invariant
                0 <= n <= 7,
                i <= n,
                v@.len() == i,
                forall|j: int| 0 <= j < i ==> v@[j] == order@[j],
                self@ >= 0 ==> order@ == seq![Solfa::F, Solfa::C, Solfa::G, Solfa::D, Solfa::A, Solfa::E, Solfa::B],
                self@ < 0 ==> order@ == seq![Solfa::B, Solfa::E, Solfa::A, Solfa::D, Solfa::G, Solfa::C, Solfa::F],
                n == (if self@ >= 0 { self@ } else { -self@ }),
                -7 <= self@ <= 7,
            decreases n - i,
        {
            v.push(order[i]);
            i = i + 1;
        }
        proof {
            if self@ >= 0 {
                assert(v@ =~= sharps_in_order().take(self@));
            } else {
                assert(v@ =~= flats_in_order().take(-self@));
            }
            assert forall|s: Solfa| v@.contains(s) <==> key_alters(self@, s) == Some(true) by {
                if self@ >= 0 {
                    let k = sharp_rank(s);
                    assert(order@[k] == s);
                    if v@.contains(s) {
                        let j = choose|j: int| 0 <= j < v@.len() && v@[j] == s;
                        assert(order@[j] == s);
                    }
                    if sharp_rank(s) < self@ {
                        assert(v@[k] == s);
                    }
                } else {
                    let k = flat_rank(s);
                    assert(order@[k] == s);
                    if v@.contains(s) {
                        let j = choose|j: int| 0 <= j < v@.len() && v@[j] == s;
                        assert(order@[j] == s);
                    }
                    if flat_rank(s) < -self@ {
                        assert(v@[k] == s);
                    }
                }
            }
        }
        Some(v)
    }
}

impl Default for Key {
    fn default() -> (r: Key)
        ensures
            r@ == 0,
    {
        Key::NONE()
    }
}


/// The order in which a key signature adds sharps: F C G D A E B.
pub open spec fn sharps_in_order() -> Seq<Solfa> {
    seq![Solfa::F, Solfa::C, Solfa::G, Solfa::D, Solfa::A, Solfa::E, Solfa::B]
}

/// The order in which a key signature adds flats: B E A D G C F.
pub open spec fn flats_in_order() -> Seq<Solfa> {
    seq![Solfa::B, Solfa::E, Solfa::A, Solfa::D, Solfa::G, Solfa::C, Solfa::F]
}

/// The key signature of `k` sharps alters exactly the first `k` solfas of
/// F C G D A E B, and that of `k` flats exactly the first `k` of
/// B E A D G C F.
pub proof fn law_key_alters_in_order(k: int, s: Solfa)
    requires
        0 <= k <= 7,
    ensures
        key_alters(k, s) == Some(sharps_in_order().take(k).contains(s)),
        key_alters(-k, s) == Some(flats_in_order().take(k).contains(s)),
{
    let sh = sharps_in_order();
    let fl = flats_in_order();
    assert(sh[0] == Solfa::F && sh[1] == Solfa::C && sh[2] == Solfa::G && sh[3] == Solfa::D);
    assert(sh[4] == Solfa::A && sh[5] == Solfa::E && sh[6] == Solfa::B);
    assert(fl[0] == Solfa::B && fl[1] == Solfa::E && fl[2] == Solfa::A && fl[3] == Solfa::D);
    assert(fl[4] == Solfa::G && fl[5] == Solfa::C && fl[6] == Solfa::F);
    assert forall|i: int| 0 <= i < 7 implies sharp_rank(#[trigger] sh[i]) == i by {}
    assert forall|i: int| 0 <= i < 7 implies flat_rank(#[trigger] fl[i]) == i by {}
    assert(sh[sharp_rank(s)] == s);
    assert(fl[flat_rank(s)] == s);
    if sharp_rank(s) < k {
        assert(sh.take(k)[sharp_rank(s)] == s);
    } else {
        assert forall|i: int| 0 <= i < k implies #[trigger] sh.take(k)[i] != s by {
            assert(sharp_rank(sh[i]) == i);
        }
    }
    if flat_rank(s) < k {
        assert(fl.take(k)[flat_rank(s)] == s);
    } else {
        assert forall|i: int| 0 <= i < k implies #[trigger] fl.take(k)[i] != s by {
            assert(flat_rank(fl[i]) == i);
        }
    }
}

} // verus!
