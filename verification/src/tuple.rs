//! Turning notes into a tuplet: the notes share a bar equally by their
//! lengths.
use vstd::prelude::*;
use std::rc::Rc;
use gcd::Gcd;
use crate::note::Note;
use crate::have_start_tick::HaveBaseStartTick;
use crate::duration::{Duration, Denominator, Numerator, numerator_ord, tick_length_of, two_pow};

use crate::models::unwrapped;

verus! {

/// The greatest common divisor (Euclid); the other number when one is 0.
pub open spec fn gcd_of(a: nat, b: nat) -> nat
    decreases b,
{
    if b == 0 {
        a
    } else {
        gcd_of(b, a % b)
    }
}

/// `Gcd::gcd` on `u32`: the greatest common divisor of the two numbers (the
/// other number when one of them is 0).
#[verifier::external_body]
fn gcd_u32(a: u32, b: u32) -> (r: u32)
    ensures
        r == gcd_of(a as nat, b as nat),
{
    a.gcd(b)
}

/// The length of a note in units of a 256th note, counting its dots (a
/// quarter note is 64, a dotted one 96), whatever its tuplet denominator.
pub open spec fn unit_of(d: Duration) -> int {
    let len = two_pow((8 - numerator_ord(d.numerator)) as nat) as int;
    len + (len - len / (two_pow(d.dots@ as nat) as int))
}

proof fn lemma_two_pow_table(d: nat)
    requires
        d <= 8,
    ensures
        two_pow(d) == if d == 0 { 1nat } else if d == 1 { 2nat } else if d == 2 { 4nat } else if d == 3 { 8nat }
            else if d == 4 { 16nat } else if d == 5 { 32nat } else if d == 6 { 64nat } else if d == 7 { 128nat } else { 256nat },
{
    reveal_with_fuel(two_pow, 9);
}

/// The length of a duration in units of a 256th note (see `unit_of`).
pub fn numerator_unit(dur: Duration) -> (r: u32)
    ensures
        r == unit_of(dur),
        1 <= r <= 511,
{
    let len: u32 = match dur.numerator {
        Numerator::Whole => 256,
        Numerator::Half => 128,
        Numerator::Quarter => 64,
        Numerator::N8th => 32,
        Numerator::N16th => 16,
        Numerator::N32nd => 8,
        Numerator::N64th => 4,
        Numerator::N128th => 2,
    };
    let dots = dur.dots.value();
    let divisor: u32 = match dots {
        0 => 1,
        1 => 2,
        2 => 4,
        3 => 8,
        4 => 16,
        5 => 32,
        6 => 64,
        _ => 128,
    };
    proof {
        lemma_two_pow_table(dots as nat);
        lemma_two_pow_table((8 - numerator_ord(dur.numerator)) as nat);
    }
    len + (len - len / divisor)
}

/// The notes that start at one tick, with the shortest of their lengths
/// (taken as plain, untupled notes); or nothing yet.
pub enum TupleElem {
    Empty,
    Group { start_tick: u32, notes: Vec<Rc<Note>>, min_duration: Duration },
}

/// A group of notes starting at one tick, with the shortest length.
pub struct ElemModel {
    pub start_tick: u32,
    pub notes: Seq<Rc<Note>>,
    pub min_duration: Duration,
}

impl TupleElem {
    pub open spec fn model(self) -> Option<ElemModel> {
        match self {
            TupleElem::Empty => None,
            TupleElem::Group { start_tick, notes, min_duration } => Some(ElemModel { start_tick, notes: notes@, min_duration }),
        }
    }

    /// The number of notes in the group.
    pub fn len(&self) -> (r: usize)
        ensures
            r == match self.model() {
                None => 0,
                Some(m) => m.notes.len(),
            },
    {
        match self {
            TupleElem::Empty => 0,
            TupleElem::Group { start_tick: _, notes, min_duration: _ } => notes.len(),
        }
    }

    /// The note at `index` in the group, if there is one.
    pub fn get(&self, index: usize) -> (r: Option<&Rc<Note>>)
        ensures
            match self.model() {
                Some(m) => if index < m.notes.len() { r == Some(&m.notes[index as int]) } else { r is None },
                None => r is None,
            },
    {
        match self {
            TupleElem::Empty => None,
            TupleElem::Group { start_tick: _, notes, min_duration: _ } => if index < notes.len() {
                Some(&notes[index])
            } else {
                None
            },
        }
    }

    /// The ticks of the shortest length in the group; 0 for no group.
    fn tick_length(&self) -> (r: u32)
        ensures
            r == match self.model() {
                None => 0,
                Some(m) => tick_length_of(m.min_duration),
            },
    {
        match self {
            TupleElem::Empty => 0,
            TupleElem::Group { start_tick: _, notes: _, min_duration } => min_duration.tick_length(),
        }
    }

    /// The units of the shortest length in the group.
    fn unit(&self) -> (r: Option<u32>)
        ensures
            match self.model() {
                None => r is None,
                Some(m) => r is Some && r->Some_0 == unit_of(m.min_duration),
            },
    {
        match self {
            TupleElem::Empty => None,
            TupleElem::Group { start_tick: _, notes: _, min_duration } => Some(numerator_unit(*min_duration)),
        }
    }

    /// The group with `note` added when it starts at the group's tick; else
    /// the group and a new one of `note` alone.
    fn add(self, note: Rc<Note>) -> (r: SingleOrDouble<TupleElem>)
        ensures
            match elem_add(self.model(), note) {
                (None, c) => r matches SingleOrDouble::Single(e) && e.model() == Some(c),
                (Some(f), c) => r matches SingleOrDouble::Double(e0, e1) && e0.model() == Some(f) && e1.model() == Some(c),
            },
    {
        let two = match Denominator::from_value(2) {
            Some(d) => d,
            None => {
                proof { assert(false); }
                Denominator::default()
            },
        };
        proof {
            Denominator::lemma_two();
            Denominator::lemma_view_eq(two, Denominator::two());
        }
        let duration = note.duration.with_denominator(two);
        match self {
            TupleElem::Empty => {
                let tick = note.base_start_tick();
                let notes = vec![note];
                proof { assert(notes@ =~= seq![note]); }
                SingleOrDouble::Single(TupleElem::Group { start_tick: tick, min_duration: duration, notes })
            },
            TupleElem::Group { start_tick, notes, min_duration } => {
                if start_tick != note.base_start_tick() {
                    let tick = note.base_start_tick();
                    let new_notes = vec![note];
                    proof { assert(new_notes@ =~= seq![note]); }
                    SingleOrDouble::Double(
                        TupleElem::Group { start_tick, notes, min_duration },
                        TupleElem::Group { start_tick: tick, min_duration: duration, notes: new_notes },
                    )
                } else {
                    let mut notes = notes;
                    notes.push(note);
                    SingleOrDouble::Single(TupleElem::Group { start_tick, min_duration: min_duration.min(duration), notes })
                }
            },
        }
    }
}

/// One value or two.
pub enum SingleOrDouble<T> {
    Single(T),
    Double(T, T),
}

/// A length taken as a plain note (tuplet denominator 2).
pub open spec fn plain_duration(d: Duration) -> Duration {
    Duration { denominator: Denominator::two(), ..d }
}

/// The shorter of two lengths; the second when both are equally long.
pub open spec fn shorter(a: Duration, b: Duration) -> Duration {
    if tick_length_of(a) < tick_length_of(b) { a } else { b }
}

/// Adding a note to a group: the group that is finished, if any, and the
/// current group.
pub open spec fn elem_add(cur: Option<ElemModel>, n: Rc<Note>) -> (Option<ElemModel>, ElemModel) {
    let d = plain_duration(n.duration);
    let alone = ElemModel { start_tick: n.base_start_tick, notes: seq![n], min_duration: d };
    match cur {
        None => (None, alone),
        Some(e) => if e.start_tick != n.base_start_tick {
            (Some(e), alone)
        } else {
            (None, ElemModel { start_tick: e.start_tick, notes: e.notes.push(n), min_duration: shorter(e.min_duration, d) })
        },
    }
}

/// The groups of notes, in order: finished groups and the current one.
pub open spec fn groups_fold(s: Seq<Rc<Note>>) -> (Seq<ElemModel>, Option<ElemModel>)
    decreases s.len(),
{
    if s.len() == 0 {
        (Seq::empty(), None)
    } else {
        let (done, cur) = groups_fold(s.drop_last());
        let (fin, c) = elem_add(cur, s.last());
        (
            match fin {
                Some(f) => done.push(f),
                None => done,
            },
            Some(c),
        )
    }
}

/// The groups of consecutive notes that start at one tick.
pub open spec fn groups_of(s: Seq<Rc<Note>>) -> Seq<ElemModel> {
    let (done, cur) = groups_fold(s);
    match cur {
        Some(c) => done.push(c),
        None => done,
    }
}

/// The length kept for a group is its shortest note's, each note taken as
/// a plain note: no note of the group is shorter, and one of them has it.
pub open spec fn keeps_shortest(g: ElemModel) -> bool {
    &&& forall|j: int| 0 <= j < g.notes.len() ==> tick_length_of(g.min_duration) <= tick_length_of(plain_duration((#[trigger] g.notes[j]).duration))
    &&& exists|j: int| 0 <= j < g.notes.len() && g.min_duration == plain_duration((#[trigger] g.notes[j]).duration)
}

/// Folding notes into groups keeps, for every group, its shortest note's
/// length.
proof fn lemma_groups_fold_shortest(s: Seq<Rc<Note>>)
    ensures
        forall|i: int| 0 <= i < groups_fold(s).0.len() ==> keeps_shortest(#[trigger] groups_fold(s).0[i]),
        groups_fold(s).1 matches Some(c) ==> keeps_shortest(c),
    decreases s.len(),
{
    if s.len() > 0 {
        lemma_groups_fold_shortest(s.drop_last());
        let (done, cur) = groups_fold(s.drop_last());
        let n = s.last();
        let d = plain_duration(n.duration);
        match cur {
            None => {
                assert(seq![n][0] == n);
            },
            Some(e) => {
                if e.start_tick != n.base_start_tick {
                    assert(seq![n][0] == n);
                    assert(done.push(e).last() == e);
                    assert forall|i: int| 0 <= i < done.push(e).len() implies keeps_shortest(#[trigger] done.push(e)[i]) by {
                        if i < done.len() {
                            assert(done.push(e)[i] == done[i]);
                        }
                    }
                } else {
                    let ns = e.notes.push(n);
                    let m = shorter(e.min_duration, d);
                    let j0 = choose|j: int| 0 <= j < e.notes.len() && e.min_duration == plain_duration((#[trigger] e.notes[j]).duration);
                    assert forall|j: int| 0 <= j < ns.len() implies tick_length_of(m) <= tick_length_of(plain_duration((#[trigger] ns[j]).duration)) by {
                        if j < e.notes.len() {
                            assert(ns[j] == e.notes[j]);
                        }
                    }
                    if m == d {
                        assert(ns[e.notes.len() as int] == n);
                    } else {
                        assert(ns[j0] == e.notes[j0]);
                    }
                }
            },
        }
    }
}

/// Each group of notes that start at one tick keeps the length of its
/// shortest note, each note taken as a plain note: no note of the group is
/// shorter, and one of them has exactly that length.
pub proof fn law_groups_keep_shortest(s: Seq<Rc<Note>>)
    ensures
        forall|i: int| 0 <= i < groups_of(s).len() ==> {
            let g = #[trigger] groups_of(s)[i];
            &&& forall|j: int| 0 <= j < g.notes.len() ==> tick_length_of(g.min_duration) <= tick_length_of(plain_duration((#[trigger] g.notes[j]).duration))
            &&& exists|j: int| 0 <= j < g.notes.len() && g.min_duration == plain_duration((#[trigger] g.notes[j]).duration)
        },
{
    lemma_groups_fold_shortest(s);
    let (done, cur) = groups_fold(s);
    match cur {
        Some(c) => {
            assert forall|i: int| 0 <= i < done.push(c).len() implies keeps_shortest(#[trigger] done.push(c)[i]) by {
                if i < done.len() {
                    assert(done.push(c)[i] == done[i]);
                }
            }
        },
        None => {},
    }
    assert forall|i: int| 0 <= i < groups_of(s).len() implies keeps_shortest(#[trigger] groups_of(s)[i]) by {}
}

/// Inserting a note into notes sorted by start tick: after every note that
/// starts no later.
pub open spec fn insert_by_tick(s: Seq<Rc<Note>>, x: Rc<Note>) -> Seq<Rc<Note>>
    decreases s.len(),
{
    if s.len() == 0 {
        seq![x]
    } else if s.last().base_start_tick <= x.base_start_tick {
        s.push(x)
    } else {
        insert_by_tick(s.drop_last(), x).push(s.last())
    }
}

/// The notes sorted by start tick, notes that start together keeping their
/// order.
pub open spec fn sorted_by_tick(s: Seq<Rc<Note>>) -> Seq<Rc<Note>>
    decreases s.len(),
{
    if s.len() == 0 {
        Seq::empty()
    } else {
        insert_by_tick(sorted_by_tick(s.drop_last()), s.last())
    }
}

/// The greatest common divisor of the units of the notes; `None` for no note.
pub open spec fn units_gcd(s: Seq<Rc<Note>>) -> Option<u32>
    decreases s.len(),
{
    if s.len() == 0 {
        None
    } else {
        let u = unit_of(s.last().duration) as nat;
        match units_gcd(s.drop_last()) {
            None => Some(u as u32),
            Some(g) => Some(gcd_of(g as nat, u) as u32),
        }
    }
}

/// A multiple of `d`, scaled and shifted by multiples of `d`, stays one.
proof fn lemma_multiple_comb(x: int, y: int, q: int, d: int)
    requires
        d > 0,
        x % d == 0,
        y % d == 0,
    ensures
        (x * q + y) % d == 0,
        (y - x * q) % d == 0,
{
    vstd::arithmetic::div_mod::lemma_fundamental_div_mod(x, d);
    vstd::arithmetic::div_mod::lemma_fundamental_div_mod(y, d);
    let kx = x / d;
    let ky = y / d;
    assert(x * q + y == (kx * q + ky) * d) by (nonlinear_arith)
        requires x == d * kx, y == d * ky;
    assert(y - x * q == (ky - kx * q) * d) by (nonlinear_arith)
        requires x == d * kx, y == d * ky;
    vstd::arithmetic::div_mod::lemma_mod_multiples_basic(kx * q + ky, d);
    vstd::arithmetic::div_mod::lemma_mod_multiples_basic(ky - kx * q, d);
}

/// The greatest common divisor divides both numbers.
proof fn lemma_gcd_divides(a: nat, b: nat)
    requires
        a > 0 || b > 0,
    ensures
        gcd_of(a, b) > 0,
        a % gcd_of(a, b) == 0,
        b % gcd_of(a, b) == 0,
    decreases b,
{
    if b == 0 {
        vstd::arithmetic::div_mod::lemma_mod_multiples_basic(1, a as int);
        vstd::arithmetic::div_mod::lemma_mod_multiples_basic(0, a as int);
    } else {
        let r = a % b;
        lemma_gcd_divides(b, r);
        let g = gcd_of(b, r);
        assert(gcd_of(a, b) == g);
        vstd::arithmetic::div_mod::lemma_fundamental_div_mod(a as int, b as int);
        lemma_multiple_comb(b as int, r as int, (a / b) as int, g as int);
        assert(a == b * (a / b) + r);
        assert(b * (a / b) == (b as int) * ((a / b) as int));
    }
}

/// Every common divisor of two numbers divides their greatest common divisor.
proof fn lemma_gcd_greatest(a: nat, b: nat, d: int)
    requires
        d > 0,
        (a as int) % d == 0,
        (b as int) % d == 0,
    ensures
        (gcd_of(a, b) as int) % d == 0,
    decreases b,
{
    if b > 0 {
        let r = a % b;
        vstd::arithmetic::div_mod::lemma_fundamental_div_mod(a as int, b as int);
        lemma_multiple_comb(b as int, a as int, (a / b) as int, d);
        assert(r == a - b * (a / b));
        assert(b * (a / b) == (b as int) * ((a / b) as int));
        lemma_gcd_greatest(b, r, d);
    }
}

/// `d` divides the units of every note.
pub open spec fn divides_all_units(s: Seq<Rc<Note>>, d: int) -> bool {
    forall|j: int| 0 <= j < s.len() ==> #[trigger] unit_of(s[j].duration) % d == 0
}

/// The common unit of notes is the greatest common divisor of their units:
/// it divides the units of every note, and every number that does divides
/// it.
pub proof fn law_units_gcd(s: Seq<Rc<Note>>)
    requires
        s.len() > 0,
    ensures
        units_gcd(s) is Some,
        units_gcd(s)->Some_0 > 0,
        divides_all_units(s, units_gcd(s)->Some_0 as int),
        forall|d: int| 0 < d && #[trigger] divides_all_units(s, d) ==> (units_gcd(s)->Some_0 as int) % d == 0,
    decreases s.len(),
{
    let d0 = s.drop_last();
    let u = unit_of(s.last().duration) as nat;
    lemma_unit_bounds(s.last().duration);
    if d0.len() == 0 {
        assert(units_gcd(d0) is None);
        vstd::arithmetic::div_mod::lemma_mod_multiples_basic(1, u as int);
        assert forall|j: int| 0 <= j < s.len() implies #[trigger] unit_of(s[j].duration) % (u as int) == 0 by {
            assert(j == 0 && s[j] == s.last());
        }
        assert forall|d: int| 0 < d && #[trigger] divides_all_units(s, d) implies (units_gcd(s)->Some_0 as int) % d == 0 by {
            assert(unit_of(s[0].duration) % d == 0);
        }
    } else {
        law_units_gcd(d0);
        let g = units_gcd(d0)->Some_0 as nat;
        lemma_gcd_bounds(g, u);
        lemma_gcd_divides(g, u);
        let h = gcd_of(g, u);
        assert(units_gcd(s) == Some(h as u32));
        assert forall|j: int| 0 <= j < s.len() implies #[trigger] unit_of(s[j].duration) % (h as int) == 0 by {
            if j < d0.len() {
                assert(s[j] == d0[j]);
                assert(unit_of(d0[j].duration) % (g as int) == 0);
                vstd::arithmetic::div_mod::lemma_fundamental_div_mod(g as int, h as int);
                lemma_multiple_comb(g as int, 0, 0, h as int);
                let k = g as int / h as int;
                let x = unit_of(d0[j].duration);
                vstd::arithmetic::div_mod::lemma_fundamental_div_mod(x, g as int);
                assert(x == (g as int) * (x / (g as int)));
                assert(g as int == (h as int) * k);
                assert(x == (k * (x / (g as int))) * (h as int)) by (nonlinear_arith)
                    requires x == (g as int) * (x / (g as int)), g as int == (h as int) * k;
                vstd::arithmetic::div_mod::lemma_mod_multiples_basic(k * (x / (g as int)), h as int);
            } else {
                assert(s[j] == s.last());
            }
        }
        assert forall|d: int| 0 < d && #[trigger] divides_all_units(s, d) implies (units_gcd(s)->Some_0 as int) % d == 0 by {
            assert forall|j: int| 0 <= j < d0.len() implies #[trigger] unit_of(d0[j].duration) % d == 0 by {
                assert(s[j] == d0[j]);
            }
            assert(divides_all_units(d0, d));
            assert(unit_of(s[s.len() - 1].duration) % d == 0);
            lemma_gcd_greatest(g, u, d);
        }
    }
}

/// `Rc::clone`: another handle to the same note.
#[verifier::external_body]
pub(crate) fn share_note(n: &Rc<Note>) -> (r: Rc<Note>)
    ensures
        r == *n,
{
    n.clone()
}

/// Where inserting by start tick puts a note: after the notes that start no
/// later than it, before those that start later.
proof fn lemma_insert_at(s: Seq<Rc<Note>>, x: Rc<Note>, p: int)
    requires
        0 <= p <= s.len(),
        p == 0 || s[p - 1].base_start_tick <= x.base_start_tick,
        forall|j: int| p <= j < s.len() ==> (#[trigger] s[j]).base_start_tick > x.base_start_tick,
    ensures
        insert_by_tick(s, x) == s.insert(p, x),
    decreases s.len(),
{
    if s.len() == 0 {
        assert(s.insert(p, x) =~= seq![x]);
    } else if s.last().base_start_tick <= x.base_start_tick {
        if p < s.len() {
            assert(s[s.len() - 1].base_start_tick > x.base_start_tick);
        }
        assert(s.insert(p, x) =~= s.push(x));
    } else {
        let d = s.drop_last();
        if p == s.len() {
            assert(s[p - 1] == s.last());
        }
        assert forall|j: int| p <= j < d.len() implies (#[trigger] d[j]).base_start_tick > x.base_start_tick by {
            assert(d[j] == s[j]);
        }
        if p > 0 {
            assert(d[p - 1] == s[p - 1]);
        }
        lemma_insert_at(d, x, p);
        assert(s.insert(p, x) =~= d.insert(p, x).push(s.last()));
    }
}

/// Inserts `x` into `out`, sorted by start tick, after the notes that start
/// no later than it.
fn insert_by_start_tick(out: &mut Vec<Rc<Note>>, x: Rc<Note>)
    ensures
        final(out)@ == insert_by_tick(old(out)@, x),
{
    let mut p: usize = out.len();
    while p > 0 && out[p - 1].base_start_tick() > x.base_start_tick()
        invariant
            p <= out.len(),
            out@ == old(out)@,
            forall|j: int| p <= j < out.len() ==> (#[trigger] out@[j]).base_start_tick > x.base_start_tick,
        decreases p,
    {
        p = p - 1;
    }
    proof { lemma_insert_at(out@, x, p as int); }
    out.insert(p, x);
}

/// The notes of groups, one group after the other.
pub open spec fn group_notes(gs: Seq<ElemModel>) -> Seq<Rc<Note>>
    decreases gs.len(),
{
    if gs.len() == 0 {
        Seq::empty()
    } else {
        group_notes(gs.drop_last()) + gs.last().notes
    }
}

/// Sorts the notes by start tick (notes that start together keep their
/// order) and groups those that start together; gives the greatest common
/// divisor of the notes' units as well (`None` for no note).
pub fn sort_by_start_tick(notes: &mut Vec<Rc<Note>>) -> (r: (Option<u32>, Vec<TupleElem>))
    ensures
        final(notes)@ == sorted_by_tick(old(notes)@),
        r.0 == units_gcd(final(notes)@),
        old(notes)@.len() == 0 ==> r.1@.len() == 0,
        old(notes)@.len() > 0 ==> r.1@.map_values(|e: TupleElem| e.model()) == groups_of(final(notes)@).map_values(
            |g: ElemModel| Some(g)),
{
    if notes.len() == 0 {
        proof { assert(notes@ =~= Seq::<Rc<Note>>::empty()); }
        return (None, Vec::new());
    }
    let ghost input = notes@;
    let mut sorted: Vec<Rc<Note>> = Vec::new();
    let mut i: usize = 0;
    proof { assert(input.take(0) =~= Seq::<Rc<Note>>::empty()); }
    while i < notes.len()
        invariant
            i <= notes.len(),
            notes@ == input,
            sorted@ == sorted_by_tick(input.take(i as int)),
        decreases notes.len() - i,
    {
        let x = share_note(&notes[i]);
        insert_by_start_tick(&mut sorted, x);
        proof {
            assert(input.take(i + 1).drop_last() =~= input.take(i as int));
            assert(input.take(i + 1).last() == input[i as int]);
        }
        i = i + 1;
    }
    proof { assert(input.take(input.len() as int) =~= input); }
    *notes = sorted;
    let ghost s = notes@;
    let mut ret: Vec<TupleElem> = Vec::new();
    let mut cur = TupleElem::Empty;
    let mut gcd: Option<u32> = None;
    let mut k: usize = 0;
    proof {
        assert(s.take(0) =~= Seq::<Rc<Note>>::empty());
        assert(ret@.map_values(|e: TupleElem| e.model()) =~= Seq::<Option<ElemModel>>::empty());
    }
    while k < notes.len()
        invariant
            k <= notes.len(),
            notes@ == s,
            gcd == units_gcd(s.take(k as int)),
            ret@.map_values(|e: TupleElem| e.model()) == groups_fold(s.take(k as int)).0.map_values(|g: ElemModel| Some(g)),
            cur.model() == groups_fold(s.take(k as int)).1,
        decreases notes.len() - k,
    {
        let note = share_note(&notes[k]);
        let u = numerator_unit(note.duration);
        gcd = match gcd {
            None => Some(u),
            Some(g) => Some(gcd_u32(g, u)),
        };
        let ghost before = ret@.map_values(|e: TupleElem| e.model());
        let ghost done = groups_fold(s.take(k as int)).0;
        let ghost step = elem_add(cur.model(), note);
        proof {
            assert(s.take(k + 1).drop_last() =~= s.take(k as int));
            assert(s.take(k + 1).last() == s[k as int]);
            assert(groups_fold(s.take(k + 1)) == (match step.0 {
                Some(f) => done.push(f),
                None => done,
            }, Some(step.1)));
        }
        match cur.add(note) {
            SingleOrDouble::Single(e) => {
                cur = e;
            },
            SingleOrDouble::Double(e0, e1) => {
                ret.push(e0);
                proof {
                    assert(ret@.map_values(|e: TupleElem| e.model()) =~= before.push(e0.model()));
                    assert(done.push(step.0->Some_0).map_values(|g: ElemModel| Some(g)) =~= done.map_values(|g: ElemModel| Some(g)).push(Some(step.0->Some_0)));
                }
                cur = e1;
            },
        }
        k = k + 1;
    }
    proof { assert(s.take(s.len() as int) =~= s); }
    let ghost before = ret@.map_values(|e: TupleElem| e.model());
    proof {
        assert(s.drop_last().len() < s.len());
        assert(groups_fold(s).1 is Some);
    }
    ret.push(cur);
    proof {
        let done = groups_fold(s).0;
        assert(ret@.map_values(|e: TupleElem| e.model()) =~= before.push(cur.model()));
        assert(done.push(groups_fold(s).1->Some_0).map_values(|g: ElemModel| Some(g)) =~= done.map_values(|g: ElemModel| Some(g)).push(groups_fold(s).1));
    }
    (gcd, ret)
}

/// The notes of the groups are the notes, in order.
proof fn lemma_groups_fold_notes(s: Seq<Rc<Note>>)
    requires
        s.len() > 0,
    ensures
        groups_fold(s).1 is Some,
        group_notes(groups_fold(s).0) + groups_fold(s).1->Some_0.notes == s,
    decreases s.len(),
{
    let d = s.drop_last();
    let x = s.last();
    if d.len() == 0 {
        assert(group_notes(Seq::<ElemModel>::empty()) =~= Seq::<Rc<Note>>::empty());
        assert(s =~= seq![x]);
    } else {
        lemma_groups_fold_notes(d);
        let (done, cur) = groups_fold(d);
        let c = cur->Some_0;
        if c.start_tick != x.base_start_tick {
            assert(done.push(c).drop_last() =~= done);
            assert(group_notes(done.push(c)) == group_notes(done) + c.notes);
            assert(group_notes(done.push(c)) + seq![x] =~= s);
        } else {
            assert(s =~= d.push(x));
            assert(group_notes(done) + c.notes.push(x) =~= (group_notes(done) + c.notes).push(x));
        }
    }
}

/// The notes of the groups of notes are the notes.
proof fn lemma_group_notes_of(s: Seq<Rc<Note>>)
    requires
        s.len() > 0,
    ensures
        group_notes(groups_of(s)) == s,
{
    lemma_groups_fold_notes(s);
    let (done, cur) = groups_fold(s);
    assert(done.push(cur->Some_0).drop_last() =~= done);
}

/// The notes of the first groups come first.
proof fn lemma_group_notes_prefix(gs: Seq<ElemModel>, i: int)
    requires
        0 <= i < gs.len(),
    ensures
        group_notes(gs.take(i + 1)) == group_notes(gs.take(i)) + gs[i].notes,
        group_notes(gs.take(i + 1)).len() <= group_notes(gs).len(),
        group_notes(gs).subrange(0, group_notes(gs.take(i + 1)).len() as int) == group_notes(gs.take(i + 1)),
    decreases gs.len() - i,
{
    assert(gs.take(i + 1).drop_last() =~= gs.take(i));
    if i + 1 < gs.len() {
        lemma_group_notes_prefix(gs, i + 1);
    } else {
        assert(gs.take(i + 1) =~= gs);
    }
}

/// The units of notes, all together.
pub open spec fn notes_units(s: Seq<Rc<Note>>) -> int
    decreases s.len(),
{
    if s.len() == 0 {
        0
    } else {
        notes_units(s.drop_last()) + unit_of(s.last().duration)
    }
}

/// The ticks of the shortest lengths of the groups, all together.
pub open spec fn groups_ticks(gs: Seq<Option<ElemModel>>) -> int
    decreases gs.len(),
{
    if gs.len() == 0 {
        0
    } else {
        groups_ticks(gs.drop_last()) + match gs.last() {
            Some(g) => tick_length_of(g.min_duration),
            None => 0,
        }
    }
}

/// The units of the shortest lengths of the groups, all together.
pub open spec fn groups_units(gs: Seq<Option<ElemModel>>) -> int
    decreases gs.len(),
{
    if gs.len() == 0 {
        0
    } else {
        groups_units(gs.drop_last()) + match gs.last() {
            Some(g) => unit_of(g.min_duration),
            None => 0,
        }
    }
}

/// Summing the ticks and the units of the groups' shortest lengths, one group
/// after the other, stays within `u32`.
pub open spec fn sums_fit(gs: Seq<Option<ElemModel>>) -> bool {
    forall|i: int| 0 <= i <= gs.len() ==> groups_ticks(#[trigger] gs.take(i)) <= u32::MAX && groups_units(gs.take(i)) <= u32::MAX
}

/// The sums of the ticks and the units of the groups' shortest lengths.
fn total_tick_unit(elements: &Vec<TupleElem>) -> (r: (u32, u32))
    requires
        sums_fit(elements@.map_values(|e: TupleElem| e.model())),
    ensures
        r.0 == groups_ticks(elements@.map_values(|e: TupleElem| e.model())),
        r.1 == groups_units(elements@.map_values(|e: TupleElem| e.model())),
{
    let ghost gs = elements@.map_values(|e: TupleElem| e.model());
    let mut tick: u32 = 0;
    let mut unit: u32 = 0;
    let mut i: usize = 0;
    proof { assert(gs.take(0) =~= Seq::<Option<ElemModel>>::empty()); }
    while i < elements.len()
        invariant
            i <= elements.len(),
            gs == elements@.map_values(|e: TupleElem| e.model()),
            sums_fit(gs),
            tick == groups_ticks(gs.take(i as int)),
            unit == groups_units(gs.take(i as int)),
        decreases elements.len() - i,
    {
        proof {
            assert(gs.take(i + 1).drop_last() =~= gs.take(i as int));
            assert(gs.take(i + 1).last() == elements@[i as int].model());
            assert(groups_ticks(gs.take(i + 1)) <= u32::MAX);
            assert(groups_units(gs.take(i + 1)) <= u32::MAX);
        }
        let e = &elements[i];
        tick = tick + e.tick_length();
        unit = unit + match e.unit() {
            Some(x) => x,
            None => 0,
        };
        i = i + 1;
    }
    proof { assert(gs.take(elements.len() as int) =~= gs); }
    (tick, unit)
}

proof fn lemma_gcd_bounds(a: nat, b: nat)
    requires
        b >= 1,
    ensures
        1 <= gcd_of(a, b) <= b,
    decreases b,
{
    reveal_with_fuel(gcd_of, 2);
    if a % b != 0 {
        lemma_gcd_bounds(b, a % b);
    }
}

proof fn lemma_unit_bounds(d: Duration)
    ensures
        2 <= unit_of(d) <= 512,
{
    lemma_two_pow_table((8 - numerator_ord(d.numerator)) as nat);
    crate::duration::lemma_two_pow_positive(d.dots@ as nat);
    let len = two_pow((8 - numerator_ord(d.numerator)) as nat) as int;
    let p = two_pow(d.dots@ as nat) as int;
    assert(0 <= len / p <= len) by (nonlinear_arith)
        requires len >= 0, p >= 1;
}

proof fn lemma_units_gcd_positive(s: Seq<Rc<Note>>)
    requires
        s.len() > 0,
    ensures
        units_gcd(s) is Some,
        1 <= units_gcd(s)->Some_0,
    decreases s.len(),
{
    lemma_unit_bounds(s.last().duration);
    let u = unit_of(s.last().duration) as nat;
    if s.len() > 1 {
        lemma_units_gcd_positive(s.drop_last());
        let g = units_gcd(s.drop_last())->Some_0;
        lemma_gcd_bounds(g as nat, u);
    }
}

/// The groups of the notes (as elements).
pub open spec fn tuplet_groups(s: Seq<Rc<Note>>) -> Seq<Option<ElemModel>> {
    groups_of(s).map_values(|g: ElemModel| Some(g))
}

/// `d` divides the units of the group's shortest length (if it is a group).
pub open spec fn group_unit_divides(o: Option<ElemModel>, d: int) -> bool {
    match o {
        Some(g) => unit_of(g.min_duration) % d == 0,
        None => true,
    }
}

/// A note of a group is among the notes of the groups.
proof fn lemma_group_notes_contains(gs: Seq<ElemModel>, i: int, j: int)
    requires
        0 <= i < gs.len(),
        0 <= j < gs[i].notes.len(),
    ensures
        group_notes(gs).contains(gs[i].notes[j]),
    decreases gs.len(),
{
    let d = gs.drop_last();
    let all = group_notes(gs);
    if i == gs.len() - 1 {
        let k = group_notes(d).len() + j;
        assert(all[k] == gs[i].notes[j]);
    } else {
        assert(d[i] == gs[i]);
        lemma_group_notes_contains(d, i, j);
        let k = choose|k: int| 0 <= k < group_notes(d).len() && group_notes(d)[k] == gs[i].notes[j];
        assert(all[k] == group_notes(d)[k]);
    }
}

/// Units of groups whose shortest lengths `d` divides add up to a multiple
/// of `d`.
proof fn lemma_groups_units_multiple(gs: Seq<Option<ElemModel>>, d: int)
    requires
        d > 0,
        forall|i: int| 0 <= i < gs.len() ==> group_unit_divides(#[trigger] gs[i], d),
    ensures
        groups_units(gs) % d == 0,
    decreases gs.len(),
{
    if gs.len() == 0 {
        vstd::arithmetic::div_mod::lemma_mod_multiples_basic(0, d);
    } else {
        let p = gs.drop_last();
        assert forall|i: int| 0 <= i < p.len() implies group_unit_divides(#[trigger] p[i], d) by {
            assert(p[i] == gs[i]);
        }
        lemma_groups_units_multiple(p, d);
        assert(gs.last() == gs[gs.len() - 1]);
        match gs.last() {
            Some(g) => lemma_multiple_comb(unit_of(g.min_duration), groups_units(p), 1, d),
            None => {},
        }
    }
}

/// The tuplet denominator counts the groups' shortest lengths in the common
/// unit of the notes exactly: times that unit, it is the units of the groups'
/// shortest lengths, all together.
pub proof fn law_tuplet_denominator(s: Seq<Rc<Note>>)
    requires
        s.len() > 0,
    ensures
        tuplet_denominator(s) * (units_gcd(s)->Some_0 as int) == groups_units(tuplet_groups(s)),
{
    law_units_gcd(s);
    law_groups_keep_shortest(s);
    lemma_group_notes_of(s);
    let g = units_gcd(s)->Some_0 as int;
    let gs = groups_of(s);
    let tg = tuplet_groups(s);
    assert forall|i: int| 0 <= i < tg.len() implies group_unit_divides(#[trigger] tg[i], g) by {
        assert(tg[i] == Some(gs[i]));
        let e = gs[i];
        let j = choose|j: int| 0 <= j < e.notes.len() && e.min_duration == plain_duration((#[trigger] e.notes[j]).duration);
        lemma_group_notes_contains(gs, i, j);
        let k = choose|k: int| 0 <= k < s.len() && s[k] == e.notes[j];
        assert(unit_of(s[k].duration) % g == 0);
        assert(unit_of(plain_duration(e.notes[j].duration)) == unit_of(e.notes[j].duration));
    }
    lemma_groups_units_multiple(tg, g);
    vstd::arithmetic::div_mod::lemma_fundamental_div_mod(groups_units(tg), g);
    assert(tuplet_denominator(s) == groups_units(tg) / g);
    assert(groups_units(tg) == g * (groups_units(tg) / g));
    assert(tuplet_denominator(s) * g == g * tuplet_denominator(s)) by (nonlinear_arith);
}

/// The tuplet denominator: the units of the groups' shortest lengths in
/// common units.
pub open spec fn tuplet_denominator(s: Seq<Rc<Note>>) -> int {
    groups_units(tuplet_groups(s)) / (units_gcd(s)->Some_0 as int)
}

/// The ticks the tuplet spans: the groups' shortest lengths scaled by
/// 2 / denominator.
pub open spec fn tuplet_span(s: Seq<Rc<Note>>) -> int {
    groups_ticks(tuplet_groups(s)) / tuplet_denominator(s) * 2
}

/// Where the `k`-th note of the tuplet starts: its share of the span by the
/// units of the notes before it.
pub open spec fn tuplet_tick(s: Seq<Rc<Note>>, k: int) -> int {
    s[0].base_start_tick + tuplet_span(s) * notes_units(s.take(k)) / groups_units(tuplet_groups(s))
}

/// The notes make a tuplet: the denominator is one a duration can have (as a
/// byte), and no sum or tick leaves `u32`.
pub open spec fn tuplize_ok(notes: Seq<Rc<Note>>) -> bool {
    let s = sorted_by_tick(notes);
    s.len() > 0 ==> {
        &&& sums_fit(tuplet_groups(s))
        &&& (tuplet_denominator(s) as u8) >= 2
        &&& tuplet_span(s) <= u32::MAX
        &&& forall|k: int| 0 <= k <= s.len() ==> notes_units(#[trigger] s.take(k)) <= u32::MAX
        &&& forall|k: int| 0 <= k < s.len() ==> tuplet_span(s) * notes_units(#[trigger] s.take(k)) <= u32::MAX
        &&& forall|k: int| 0 <= k < s.len() ==> #[trigger] tuplet_tick(s, k) <= u32::MAX
    }
}

/// The `k`-th note of the tuplet.
pub open spec fn tuplet_note_ok(s: Seq<Rc<Note>>, k: int, r: Rc<Note>) -> bool {
    &&& *r == (Note {
        base_start_tick: tuplet_tick(s, k) as u32,
        duration: Duration { denominator: r.duration.denominator, ..s[k].duration },
        ..*s[k]
    })
    &&& r.duration.denominator@ == (tuplet_denominator(s) as u8) as int
}

/// The notes of the tuplet of the notes: sorted by start tick, each given
/// the tuplet denominator and placed from the first start tick by its share
/// of the span.
pub open spec fn tuplet_of(notes: Seq<Rc<Note>>) -> Seq<Note> {
    let s = sorted_by_tick(notes);
    Seq::new(s.len(), |k: int| Note {
        base_start_tick: tuplet_tick(s, k) as u32,
        duration: Duration { denominator: Denominator::of_value(tuplet_denominator(s) as u8), ..s[k].duration },
        ..*s[k]
    })
}

/// The notes made into a tuplet: sorted by start tick, each given the tuplet
/// denominator and placed from the first start tick by its share of the
/// span.
pub fn tuplize(notes: Vec<Rc<Note>>) -> (r: Vec<Rc<Note>>)
    requires
        tuplize_ok(notes@),
    ensures
        r@.len() == notes@.len(),
        forall|k: int| 0 <= k < r@.len() ==> tuplet_note_ok(sorted_by_tick(notes@), k, #[trigger] r@[k]),
        unwrapped(r@) == tuplet_of(notes@),
{
    if notes.len() == 0 {
        proof {
            lemma_sorted_len(notes@);
            assert(unwrapped(Seq::<Rc<Note>>::empty()) =~= tuplet_of(notes@));
        }
        return Vec::new();
    }
    let ghost input = notes@;
    let mut notes = notes;
    let (min_unit, sorted) = sort_by_start_tick(&mut notes);
    let ghost s = notes@;
    proof {
        lemma_sorted_len(input);
        lemma_units_gcd_positive(s);
        lemma_group_notes_of(s);
    }
    let min_unit = match min_unit {
        Some(m) => m,
        None => {
            proof { assert(false); }
            return Vec::new();
        },
    };
    let start_tick = notes[0].base_start_tick();
    proof {
        assert(sorted@.map_values(|e: TupleElem| e.model()) =~= tuplet_groups(s));
        assert(s.take(s.len() as int) =~= s);
    }
    let (total_tick, total_unit) = total_tick_unit(&sorted);
    let denominator = total_unit / min_unit;
    let total_tick = total_tick / denominator * 2;
    let denominator = match Denominator::from_value(denominator as u8) {
        Some(d) => d,
        None => {
            proof { assert(false); }
            return Vec::new();
        },
    };
    let ghost gs = groups_of(s);
    let mut u: u32 = 0;
    let mut k: usize = 0;
    let mut ret: Vec<Rc<Note>> = Vec::with_capacity(notes.len());
    let mut gi: usize = 0;
    proof {
        assert(gs.take(0) =~= Seq::<ElemModel>::empty());
        assert(s.take(0) =~= Seq::<Rc<Note>>::empty());
    }
    while gi < sorted.len()
        invariant
            gi <= sorted.len(),
            s == sorted_by_tick(input),
            s.len() > 0,
            s.len() == notes.len(),
            tuplize_ok(input),
            sorted@.map_values(|e: TupleElem| e.model()) == tuplet_groups(s),
            gs == groups_of(s),
            group_notes(gs) == s,
            start_tick == s[0].base_start_tick,
            total_tick == tuplet_span(s),
            total_unit == groups_units(tuplet_groups(s)),
            total_unit >= 1,
            denominator@ == (tuplet_denominator(s) as u8) as int,
            k == group_notes(gs.take(gi as int)).len(),
            u == notes_units(s.take(k as int)),
            ret@.len() == k,
            forall|j: int| 0 <= j < k ==> tuplet_note_ok(s, j, #[trigger] ret@[j]),
        decreases sorted.len() - gi,
    {
        proof {
            assert(sorted@[gi as int].model() == tuplet_groups(s)[gi as int]);
            lemma_group_notes_prefix(gs, gi as int);
        }
        match &sorted[gi] {
            TupleElem::Empty => {
                proof { assert(false); }
            },
            TupleElem::Group { start_tick: _, notes: group, min_duration: _ } => {
                let mut ni: usize = 0;
                while ni < group.len()
                    invariant
                        ni <= group.len(),
                        group@ == gs[gi as int].notes,
                        s == sorted_by_tick(input),
                        s.len() > 0,
                        s.len() == notes.len(),
                        tuplize_ok(input),
                        group_notes(gs) == s,
                        group_notes(gs.take(gi + 1)).len() <= group_notes(gs).len(),
                        group_notes(gs).subrange(0, group_notes(gs.take(gi + 1)).len() as int) == group_notes(gs.take(gi + 1)),
                        group_notes(gs.take(gi + 1)) == group_notes(gs.take(gi as int)) + gs[gi as int].notes,
                        start_tick == s[0].base_start_tick,
                        total_tick == tuplet_span(s),
                        total_unit == groups_units(tuplet_groups(s)),
                        total_unit >= 1,
                        denominator@ == (tuplet_denominator(s) as u8) as int,
                        k == group_notes(gs.take(gi as int)).len() + ni,
                        u == notes_units(s.take(k as int)),
                        ret@.len() == k,
                        forall|j: int| 0 <= j < k ==> tuplet_note_ok(s, j, #[trigger] ret@[j]),
                    decreases group.len() - ni,
                {
                    let n = &group[ni];
                    proof {
                        let l = group_notes(gs.take(gi + 1)).len() as int;
                        assert(k < l);
                        assert(s.subrange(0, l)[k as int] == s[k as int]);
                        assert(s[k as int] == group@[ni as int]);
                        assert(s.take(k + 1).drop_last() =~= s.take(k as int));
                        assert(s.take(k + 1).last() == s[k as int]);
                        assert(notes_units(s.take(k + 1)) <= u32::MAX);
                        assert(tuplet_span(s) * notes_units(s.take(k as int)) <= u32::MAX);
                        assert(tuplet_tick(s, k as int) <= u32::MAX);
                    }
                    let tick: u32 = start_tick + total_tick * u / total_unit;
                    let note = Note { base_start_tick: tick, duration: n.duration.with_denominator(denominator), ..**n };
                    u = u + numerator_unit(note.duration);
                    ret.push(Rc::new(note));
                    ni = ni + 1;
                    k = k + 1;
                }
            },
        }
        gi = gi + 1;
    }
    proof {
        assert(gs.take(gs.len() as int) =~= gs);
        let d = Denominator::of_value(tuplet_denominator(s) as u8);
        Denominator::lemma_of_value(tuplet_denominator(s) as u8);
        assert forall|j: int| 0 <= j < ret@.len() implies #[trigger] unwrapped(ret@)[j] == tuplet_of(input)[j] by {
            assert(tuplet_note_ok(s, j, ret@[j]));
            Denominator::lemma_view_eq(ret@[j].duration.denominator, d);
        }
        assert(unwrapped(ret@) =~= tuplet_of(input));
    }
    ret
}

/// Notes in order of start tick.
pub open spec fn ticks_ascending(s: Seq<Rc<Note>>) -> bool {
    forall|i: int, j: int| 0 <= i < j < s.len() ==> (#[trigger] s[i]).base_start_tick <= (#[trigger] s[j]).base_start_tick
}

/// Inserting by start tick into notes in order of start tick adds the note
/// and keeps the order.
proof fn lemma_insert_sorted(s: Seq<Rc<Note>>, x: Rc<Note>)
    requires
        ticks_ascending(s),
    ensures
        ticks_ascending(insert_by_tick(s, x)),
        insert_by_tick(s, x).to_multiset() == s.to_multiset().insert(x),
    decreases s.len(),
{
    broadcast use vstd::seq_lib::group_to_multiset_ensures;
    if s.len() == 0 {
        assert(seq![x] =~= Seq::<Rc<Note>>::empty().push(x));
    } else if s.last().base_start_tick <= x.base_start_tick {
        let r = s.push(x);
        assert forall|i: int, j: int| 0 <= i < j < r.len() implies (#[trigger] r[i]).base_start_tick <= (#[trigger] r[j]).base_start_tick by {
            if j == s.len() {
                if i < s.len() - 1 {
                    assert(s[i].base_start_tick <= s[s.len() - 1].base_start_tick);
                }
            }
        }
    } else {
        let d = s.drop_last();
        let l = s.last();
        assert(ticks_ascending(d)) by {
            assert forall|i: int, j: int| 0 <= i < j < d.len() implies (#[trigger] d[i]).base_start_tick <= (#[trigger] d[j]).base_start_tick by {
                assert(d[i] == s[i] && d[j] == s[j]);
            }
        }
        lemma_insert_sorted(d, x);
        let m = insert_by_tick(d, x);
        let r = m.push(l);
        assert(s =~= d.push(l));
        assert forall|k: int| 0 <= k < m.len() implies (#[trigger] m[k]).base_start_tick <= l.base_start_tick by {
            assert(m.to_multiset().count(m[k]) > 0);
            if m[k] != x {
                assert(d.to_multiset().count(m[k]) > 0);
                assert(d.contains(m[k]));
                let q = choose|q: int| 0 <= q < d.len() && d[q] == m[k];
                assert(s[q] == d[q]);
                assert(s[q].base_start_tick <= s[s.len() - 1].base_start_tick);
            }
        }
        assert forall|i: int, j: int| 0 <= i < j < r.len() implies (#[trigger] r[i]).base_start_tick <= (#[trigger] r[j]).base_start_tick by {
            if j == m.len() {
                assert(r[i] == m[i]);
            } else {
                assert(r[i] == m[i] && r[j] == m[j]);
            }
        }
        assert(r.to_multiset() == m.to_multiset().insert(l));
        assert(s.to_multiset() == d.to_multiset().insert(l));
        assert(r.to_multiset() =~= s.to_multiset().insert(x));
    }
}

/// Sorting by start tick puts the notes in order of start tick and keeps
/// every note, as many times as it was given.
pub proof fn law_sorted_by_tick(s: Seq<Rc<Note>>)
    ensures
        forall|i: int, j: int| 0 <= i < j < sorted_by_tick(s).len()
            ==> (#[trigger] sorted_by_tick(s)[i]).base_start_tick <= (#[trigger] sorted_by_tick(s)[j]).base_start_tick,
        sorted_by_tick(s).to_multiset() == s.to_multiset(),
    decreases s.len(),
{
    broadcast use vstd::seq_lib::group_to_multiset_ensures;
    if s.len() == 0 {
        assert(sorted_by_tick(s) =~= s);
    } else {
        let d = s.drop_last();
        law_sorted_by_tick(d);
        assert(ticks_ascending(sorted_by_tick(d)));
        lemma_insert_sorted(sorted_by_tick(d), s.last());
        assert(s =~= d.push(s.last()));
        assert(ticks_ascending(sorted_by_tick(s)));
    }
}

/// Whether a note starts at tick `t`.
pub open spec fn starts_at(t: u32) -> spec_fn(Rc<Note>) -> bool {
    |n: Rc<Note>| n.base_start_tick == t
}

/// Inserting by start tick puts the note after every note that starts at its
/// tick.
proof fn lemma_insert_keeps_tick_order(s: Seq<Rc<Note>>, x: Rc<Note>, t: u32)
    ensures
        insert_by_tick(s, x).filter(starts_at(t)) == if x.base_start_tick == t { s.filter(starts_at(t)).push(x) } else { s.filter(starts_at(t)) },
    decreases s.len(),
{
    reveal(Seq::filter);
    let p = starts_at(t);
    assert(p(x) == (x.base_start_tick == t));
    if s.len() == 0 {
        let r = seq![x];
        assert(r.drop_last() =~= s);
        assert(r.last() == x);
        assert(s.filter(p) == s);
        assert(r.drop_last().filter(p) == s);
    } else if s.last().base_start_tick <= x.base_start_tick {
        let r = s.push(x);
        assert(r.drop_last() =~= s);
        assert(r.last() == x);
    } else {
        let d = s.drop_last();
        let l = s.last();
        assert(p(l) == (l.base_start_tick == t));
        lemma_insert_keeps_tick_order(d, x, t);
        let r = insert_by_tick(d, x).push(l);
        assert(r.drop_last() =~= insert_by_tick(d, x));
        assert(r.last() == l);
        assert(s.filter(p) == if p(l) { d.filter(p).push(l) } else { d.filter(p) });
        if x.base_start_tick == t {
            assert(!p(l));
        }
    }
}

/// Sorting by start tick keeps in their order the notes that start at one
/// tick.
pub proof fn law_sorted_by_tick_stable(s: Seq<Rc<Note>>, t: u32)
    ensures
        sorted_by_tick(s).filter(starts_at(t)) == s.filter(starts_at(t)),
    decreases s.len(),
{
    reveal(Seq::filter);
    let p = starts_at(t);
    if s.len() > 0 {
        let d = s.drop_last();
        law_sorted_by_tick_stable(d, t);
        lemma_insert_keeps_tick_order(sorted_by_tick(d), s.last(), t);
        assert(p(s.last()) == (s.last().base_start_tick == t));
        assert(s.filter(p) == if p(s.last()) { d.filter(p).push(s.last()) } else { d.filter(p) });
    } else {
        assert(sorted_by_tick(s) == s);
    }
}

/// Sorting keeps the number of notes.
proof fn lemma_sorted_len(s: Seq<Rc<Note>>)
    ensures
        sorted_by_tick(s).len() == s.len(),
    decreases s.len(),
{
    if s.len() > 0 {
        lemma_sorted_len(s.drop_last());
        lemma_insert_len(sorted_by_tick(s.drop_last()), s.last());
    }
}

proof fn lemma_insert_len(s: Seq<Rc<Note>>, x: Rc<Note>)
    ensures
        insert_by_tick(s, x).len() == s.len() + 1,
    decreases s.len(),
{
    if s.len() > 0 {
        lemma_insert_len(s.drop_last(), x);
    }
}

} // verus!
