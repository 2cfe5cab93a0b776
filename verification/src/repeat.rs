use vstd::prelude::*;
use crate::bar::{Bar, Repeat, VarIndex, var_index_value, var_index_of, region_index_of};
use crate::rhythm::Rhythm;
use crate::have_start_tick::HaveBaseStartTick;
use crate::global_repeat::{GlobalRepeat, GlobalRepeatBuilder, BuilderView, RenderRegionWarning, initial_builder,
    on_bar_ok, on_bar_spec, build_ok, build_spec, build_warnings, global_repeat_matches, ds_dc_tick};
use klavier_helper::store::Store;
use crate::repo::{keys_increasing, entries_map};
use crate::tick_set::{TickSet, tick_set, tick_range, runs_canonical, interval_runs, runs_set, canonical_runs,
    lemma_canonical_runs_of, lemma_runs_below_max, tick_set_from_pairs, tick_set_intersection, tick_set_union,
    tick_set_runs};

verus! {

/// A tick after repeats are played out, counted from the start of playing.
pub type AccumTick = u32;

/// A stretch of the score, `start_tick` included, `end_tick` excluded, played
/// as one piece.
#[derive(Debug, Clone, Copy, PartialEq, Eq, Structural)]
pub struct Chunk {
    start_tick: u32,
    end_tick: u32,
}

impl Chunk {
    pub closed spec fn start(self) -> u32 {
        self.start_tick
    }

    pub closed spec fn end(self) -> u32 {
        self.end_tick
    }

    /// The chunk with the given ends.
    pub closed spec fn of(start: u32, end: u32) -> Chunk {
        Chunk { start_tick: start, end_tick: end }
    }

    pub proof fn lemma_of(start: u32, end: u32)
        ensures
            #[trigger] Chunk::of(start, end).start() == start,
            Chunk::of(start, end).end() == end,
    {
    }

    pub proof fn lemma_eq(a: Chunk, b: Chunk)
        requires
            a.start() == b.start(),
            a.end() == b.end(),
        ensures
            a == b,
    {
    }

    pub fn new(start_tick: u32, end_tick: u32) -> (r: Chunk)
        ensures
            r == Chunk::of(start_tick, end_tick),
            r.start() == start_tick,
            r.end() == end_tick,
    {
        Chunk { start_tick, end_tick }
    }

    pub fn start_tick(self) -> (r: u32)
        ensures
            r == self.start(),
    {
        self.start_tick
    }

    pub fn end_tick(self) -> (r: u32)
        ensures
            r == self.end(),
    {
        self.end_tick
    }

    /// Whether `tick` lies in this chunk.
    pub fn contains(self, tick: u32) -> (r: bool)
        ensures
            r == (self.start() <= tick < self.end()),
    {
        self.start_tick <= tick && tick < self.end_tick
    }

    /// The chunks with those that meet (one ends where the next starts)
    /// joined into one.
    pub fn optimize(chunks: &[Chunk]) -> (r: Vec<Chunk>)
        ensures
            r@ == optimized(chunks@),
    {
        let mut ret: Vec<Chunk> = Vec::new();
        if chunks.len() == 0 {
            proof { assert(chunks@ =~= Seq::<Chunk>::empty()); }
            return ret;
        }
        let mut cur = chunks[0];
        proof {
            assert(chunks@.take(1).drop_last() =~= Seq::<Chunk>::empty());
            assert(optimized(Seq::<Chunk>::empty()) =~= Seq::<Chunk>::empty());
            assert(optimized(chunks@.take(1)) =~= seq![chunks@[0]]);
        }
        let mut i: usize = 1;
        while i < chunks.len()
            invariant
                1 <= i <= chunks.len(),
                optimized(chunks@.take(i as int)) == ret@.push(cur),
            decreases chunks.len() - i,
        {
            let next = chunks[i];
            proof {
                assert(chunks@.take(i + 1).drop_last() =~= chunks@.take(i as int));
                assert(chunks@.take(i + 1).last() == next);
                assert(ret@.push(cur).last() == cur);
                assert(ret@.push(cur).drop_last() =~= ret@);
            }
            if cur.end_tick == next.start_tick {
                cur = Chunk::new(cur.start_tick, next.end_tick);
            } else {
                ret.push(cur);
                cur = next;
            }
            i = i + 1;
        }
        ret.push(cur);
        proof { assert(chunks@.take(chunks.len() as int) =~= chunks@); }
        ret
    }

    /// The chunks in a store under the accumulated tick where playing
    /// reaches each.
    pub fn by_accum_tick(chunks: &[Chunk]) -> (r: Store<AccumTick, Chunk, ()>)
        requires
            chunks_well_formed(chunks@),
            accum_offset(chunks@) <= u32::MAX,
        ensures
            keys_increasing(store_entries(r)),
            entries_map(store_entries(r)) == accum_map(chunks@),
    {
        let mut offset: u32 = 0;
        let mut buf = chunk_store_new();
        proof {
            assert(chunks@.take(0) =~= Seq::<Chunk>::empty());
            reveal(entries_map);
            assert(entries_map(store_entries(buf)) =~= Map::<AccumTick, Chunk>::empty());
        }
        let mut i: usize = 0;
        while i < chunks.len()
            invariant
                i <= chunks.len(),
                chunks_well_formed(chunks@),
                accum_offset(chunks@) <= u32::MAX,
                offset == accum_offset(chunks@.take(i as int)),
                keys_increasing(store_entries(buf)),
                entries_map(store_entries(buf)) == accum_map(chunks@.take(i as int)),
            decreases chunks.len() - i,
        {
            let c = chunks[i];
            proof {
                assert(chunks@.take(i + 1).drop_last() =~= chunks@.take(i as int));
                assert(chunks@.take(i + 1).last() == c);
                lemma_accum_offset_grows(chunks@, i + 1);
            }
            chunk_store_add(&mut buf, offset, c);
            if c.end_tick() != u32::MAX {
                offset = offset + c.len();
            }
            i = i + 1;
        }
        proof { assert(chunks@.take(chunks.len() as int) =~= chunks@); }
        buf
    }

    /// The number of ticks in this chunk.
    pub fn len(self) -> (r: u32)
        requires
            self.start() <= self.end(),
        ensures
            r == self.end() - self.start(),
    {
        self.end_tick - self.start_tick
    }
}

/// The entries a store of chunks by accumulated tick holds, in order.
pub uninterp spec fn store_entries(s: Store<AccumTick, Chunk, ()>) -> Seq<(AccumTick, Chunk)>;

/// `Store::new`: a store with no entries (and no event log).
#[verifier::external_body]
fn chunk_store_new() -> (r: Store<AccumTick, Chunk, ()>)
    ensures
        store_entries(r) == Seq::<(AccumTick, Chunk)>::empty(),
{
    Store::new(false)
}

/// `Store::add`: the entries stay sorted by key, and the value is put under
/// the key, in place of any value the key had.
#[verifier::external_body]
fn chunk_store_add(s: &mut Store<AccumTick, Chunk, ()>, key: AccumTick, value: Chunk)
    requires
        keys_increasing(store_entries(*old(s))),
    ensures
        keys_increasing(store_entries(*final(s))),
        entries_map(store_entries(*final(s))) == entries_map(store_entries(*old(s))).insert(key, value),
{
    s.add(key, value, ());
}

/// Consecutive chunks that meet (one ends where the next starts) joined into one.
pub open spec fn optimized(s: Seq<Chunk>) -> Seq<Chunk>
    decreases s.len(),
{
    if s.len() == 0 {
        Seq::empty()
    } else {
        let o = optimized(s.drop_last());
        if o.len() > 0 && o.last().end() == s.last().start() {
            o.drop_last().push(Chunk::of(o.last().start(), s.last().end()))
        } else {
            o.push(s.last())
        }
    }
}

/// Every chunk starts no later than it ends.
pub open spec fn chunks_well_formed(s: Seq<Chunk>) -> bool {
    forall|i: int| 0 <= i < s.len() ==> (#[trigger] s[i]).start() <= s[i].end()
}

/// The ticks of a chunk, in order.
pub open spec fn chunk_ticks(c: Chunk) -> Seq<u32> {
    Seq::new((c.end() - c.start()) as nat, |i: int| (c.start() + i) as u32)
}

/// The ticks played through chunks, in order.
pub open spec fn played_ticks(s: Seq<Chunk>) -> Seq<u32>
    decreases s.len(),
{
    if s.len() == 0 {
        Seq::empty()
    } else {
        played_ticks(s.drop_last()) + chunk_ticks(s.last())
    }
}

/// How far playing has come after chunks, not counting a chunk that runs to
/// the last tick.
pub open spec fn accum_offset(s: Seq<Chunk>) -> int
    decreases s.len(),
{
    if s.len() == 0 {
        0
    } else {
        accum_offset(s.drop_last()) + if s.last().end() != u32::MAX { s.last().end() - s.last().start() } else { 0 }
    }
}

/// Each chunk under the accumulated tick where playing reaches it (a later
/// chunk at the same accumulated tick takes the place of an earlier one).
pub open spec fn accum_map(s: Seq<Chunk>) -> Map<AccumTick, Chunk>
    decreases s.len(),
{
    if s.len() == 0 {
        Map::empty()
    } else {
        accum_map(s.drop_last()).insert(accum_offset(s.drop_last()) as u32, s.last())
    }
}

proof fn lemma_accum_offset_grows(s: Seq<Chunk>, i: int)
    requires
        chunks_well_formed(s),
        0 <= i <= s.len(),
    ensures
        0 <= accum_offset(s.take(i)) <= accum_offset(s),
    decreases s.len() - i,
{
    if i < s.len() {
        lemma_accum_offset_grows(s, i + 1);
        assert(s.take(i + 1).drop_last() =~= s.take(i));
        assert(s.take(i + 1).last() == s[i]);
        assert(chunks_well_formed(s.take(i))) by {
            assert forall|j: int| 0 <= j < s.take(i).len() implies (#[trigger] s.take(i)[j]).start() <= s.take(i)[j].end() by {
                assert(s.take(i)[j] == s[j]);
            }
        }
        lemma_accum_offset_nonneg(s.take(i));
    } else {
        assert(s.take(i) =~= s);
        lemma_accum_offset_nonneg(s);
    }
}

proof fn lemma_accum_offset_nonneg(s: Seq<Chunk>)
    requires
        chunks_well_formed(s),
    ensures
        accum_offset(s) >= 0,
    decreases s.len(),
{
    if s.len() > 0 {
        assert(chunks_well_formed(s.drop_last())) by {
            assert forall|i: int| 0 <= i < s.drop_last().len() implies (#[trigger] s.drop_last()[i]).start() <= s.drop_last()[i].end() by {
                assert(s.drop_last()[i] == s[i]);
            }
        }
        lemma_accum_offset_nonneg(s.drop_last());
    }
}

/// Ticks of a chunk split where it is cut.
proof fn lemma_chunk_ticks_split(a: u32, b: u32, c: u32)
    requires
        a <= b <= c,
    ensures
        chunk_ticks(Chunk::of(a, c)) == chunk_ticks(Chunk::of(a, b)) + chunk_ticks(Chunk::of(b, c)),
{
    Chunk::lemma_of(a, c);
    Chunk::lemma_of(a, b);
    Chunk::lemma_of(b, c);
    assert(chunk_ticks(Chunk::of(a, c)) =~= chunk_ticks(Chunk::of(a, b)) + chunk_ticks(Chunk::of(b, c)));
}

/// Joining chunks keeps them well formed and keeps the first start.
proof fn lemma_optimized_well_formed(s: Seq<Chunk>)
    requires
        chunks_well_formed(s),
    ensures
        chunks_well_formed(optimized(s)),
        optimized(s).len() <= s.len(),
        s.len() > 0 ==> optimized(s).len() > 0,
    decreases s.len(),
{
    if s.len() > 0 {
        let d = s.drop_last();
        assert(chunks_well_formed(d)) by {
            assert forall|i: int| 0 <= i < d.len() implies (#[trigger] d[i]).start() <= d[i].end() by {
                assert(d[i] == s[i]);
            }
        }
        lemma_optimized_well_formed(d);
        let o = optimized(d);
        assert(s.last() == s[s.len() - 1]);
        if o.len() > 0 && o.last().end() == s.last().start() {
            Chunk::lemma_of(o.last().start(), s.last().end());
            assert(o.last() == o[o.len() - 1]);
            let n = o.drop_last().push(Chunk::of(o.last().start(), s.last().end()));
            assert forall|i: int| 0 <= i < n.len() implies (#[trigger] n[i]).start() <= n[i].end() by {
                if i < n.len() - 1 {
                    assert(n[i] == o[i]);
                }
            }
        } else {
            let n = o.push(s.last());
            assert forall|i: int| 0 <= i < n.len() implies (#[trigger] n[i]).start() <= n[i].end() by {
                if i < n.len() - 1 {
                    assert(n[i] == o[i]);
                }
            }
        }
    }
}

/// Joining chunks that meet does not change what is played.
pub proof fn law_optimize_keeps_played_ticks(s: Seq<Chunk>)
    requires
        chunks_well_formed(s),
    ensures
        played_ticks(optimized(s)) == played_ticks(s),
    decreases s.len(),
{
    if s.len() > 0 {
        let d = s.drop_last();
        assert(chunks_well_formed(d)) by {
            assert forall|i: int| 0 <= i < d.len() implies (#[trigger] d[i]).start() <= d[i].end() by {
                assert(d[i] == s[i]);
            }
        }
        law_optimize_keeps_played_ticks(d);
        lemma_optimized_well_formed(d);
        let o = optimized(d);
        assert(s.last() == s[s.len() - 1]);
        if o.len() > 0 && o.last().end() == s.last().start() {
            let a = o.last().start();
            let b = o.last().end();
            let c = s.last().end();
            assert(o.last() == o[o.len() - 1]);
            lemma_chunk_ticks_split(a, b, c);
            Chunk::lemma_eq(o.last(), Chunk::of(a, b));
            Chunk::lemma_eq(s.last(), Chunk::of(b, c));
            let n = o.drop_last().push(Chunk::of(a, c));
            assert(n.drop_last() =~= o.drop_last());
            assert(o.drop_last().push(o.last()) =~= o);
            assert(played_ticks(o) == played_ticks(o.drop_last()) + chunk_ticks(o.last()));
            assert(played_ticks(n) =~= played_ticks(o) + chunk_ticks(s.last()));
        } else {
            assert(o.push(s.last()).drop_last() =~= o);
        }
    }
}

/// Why a score's repeat symbols cannot be played out.
#[derive(Debug, PartialEq, Eq, Clone)]
pub enum RenderRegionError {
    DuplicatedRepeatStart { tick: u32 },
    DuplicatedSegno { tick: [u32; 2] },
    DuplicatedDsDc { tick: [u32; 2] },
    DuplicatedFine { tick: [u32; 2] },
    OrphanRepeatEnd { tick: u32 },
    FineWithoutDsDc { tick: u32 },
    SegnoWithoutDs { tick: u32 },
    CodaWithoutDsDc { tick: [u32; 2] },
    NoRepeatEnd { tick: u32 },
    InvalidRegionIndex { tick: u32, actual: VarIndex, expected: VarIndex },
    RepeatInVariation { tick: u32 },
    VariationNotClosed { tick: u32 },
    RepeatOrVariationOnDc { tick: u32 },
    RepeatOrVariationOnDs { tick: u32 },
    FineNotAfterSegno { segno_tick: u32, fine_tick: u32 },
    NoSegnoForDs { ds_tick: u32 },
    MoreThanTwoCodas { tick: [u32; 3] },
    OnlyOneCoda { tick: u32 },
    DcDsWhileRepeat { tick: u32 },
    DcDsWhileVariation { tick: u32 },
    SegnoWhildVariation { tick: u32 },
    CodaAfterFine { coda_from: u32, coda_to: u32, fine: u32 },
}

/// A region of the score as the ticks that make it up.
pub enum RegionModel {
    /// Played once.
    Sequence { start: u32, end: u32 },
    /// Played twice.
    Repeat { start: u32, end: u32 },
    /// A common part played before each of the variation endings in turn.
    Variation { common: (u32, u32), variations: Seq<(u32, u32)> },
}

/// The chunk of a pair of ticks.
pub open spec fn pair_chunk(p: (u32, u32)) -> Chunk {
    Chunk::of(p.0, p.1)
}

/// The chunks of a variation region: the common part before each ending.
pub open spec fn variation_chunks(common: (u32, u32), vs: Seq<(u32, u32)>) -> Seq<Chunk>
    decreases vs.len(),
{
    if vs.len() == 0 {
        Seq::empty()
    } else {
        variation_chunks(common, vs.drop_last()) + seq![pair_chunk(common), pair_chunk(vs.last())]
    }
}

/// The chunks of a region played without a jump back.
pub open spec fn plain_chunks(m: RegionModel) -> Seq<Chunk> {
    match m {
        RegionModel::Sequence { start, end } => seq![Chunk::of(start, end)],
        RegionModel::Repeat { start, end } => seq![Chunk::of(start, end), Chunk::of(start, end)],
        RegionModel::Variation { common, variations } => variation_chunks(common, variations),
    }
}

/// The chunks of a region played before the jump back at `dc`: what lies
/// before the jump (a sequence is cut at it).
pub open spec fn iter0_chunks(m: RegionModel, dc: u32) -> Seq<Chunk> {
    match m {
        RegionModel::Sequence { start, end } => if end <= dc {
            seq![Chunk::of(start, end)]
        } else if start < dc && dc < end {
            seq![Chunk::of(start, dc)]
        } else {
            Seq::empty()
        },
        RegionModel::Repeat { start: _, end } => if end <= dc { plain_chunks(m) } else { Seq::empty() },
        RegionModel::Variation { common, variations: _ } => if dc <= common.0 { Seq::empty() } else { plain_chunks(m) },
    }
}

/// A jump back does not stand inside a variation region.
pub open spec fn iter0_ok(m: RegionModel, dc: u32) -> bool {
    match m {
        RegionModel::Variation { common, variations } => variations.len() > 0 && !(common.0 < dc < variations.last().1),
        _ => true,
    }
}

/// The ticks of a region played after the jump back (a variation region
/// plays its common part and its last ending).
pub open spec fn iter1_set_of(m: RegionModel) -> Set<u32> {
    match m {
        RegionModel::Sequence { start, end } => tick_range(start as int, end - 1),
        RegionModel::Repeat { start, end } => tick_range(start as int, end - 1),
        RegionModel::Variation { common, variations } => tick_range(common.0 as int, common.1 - 1).union(
            tick_range(variations.last().0 as int, variations.last().1 - 1)),
    }
}

/// The stretches of a region are not empty, so its ticks make an interval set.
pub open spec fn iter1_ok(m: RegionModel) -> bool {
    match m {
        RegionModel::Sequence { start, end } => start < end,
        RegionModel::Repeat { start, end } => start < end,
        RegionModel::Variation { common, variations } => variations.len() > 0 && common.0 < common.1
            && variations.last().0 < variations.last().1,
    }
}

/// Chunks of canonical runs: each run from its lower tick to past its upper.
pub open spec fn runs_chunks(r: Seq<(u32, u32)>) -> Seq<Chunk> {
    r.map_values(|p: (u32, u32)| Chunk::of(p.0, (p.1 + 1) as u32))
}

/// The chunks of a region played after the jump back, whose ticks are `g`:
/// the runs of ticks in both.
pub open spec fn iter1_chunks(m: RegionModel, g: Set<u32>) -> Seq<Chunk> {
    runs_chunks(canonical_runs(g.intersect(iter1_set_of(m))))
}

/// The chunks of regions one after the other.
pub open spec fn concat_chunks(rs: Seq<RegionModel>, f: spec_fn(RegionModel) -> Seq<Chunk>) -> Seq<Chunk>
    decreases rs.len(),
{
    if rs.len() == 0 {
        Seq::empty()
    } else {
        concat_chunks(rs.drop_last(), f) + f(rs.last())
    }
}

/// How playing goes through a region.
pub enum RenderPhase<'a> {
    /// No jump back.
    NonDcDs,
    /// Before the jump back at `dc_ds_tick`.
    DcDsIter0 { dc_ds_tick: u32 },
    /// After the jump back.
    DcDsIter1 { dc_ds_tick: u32, global_repeat: &'a GlobalRepeat },
}

/// The chunks of a region in a phase.
pub open spec fn phase_chunks(m: RegionModel, phase: RenderPhase) -> Seq<Chunk> {
    match phase {
        RenderPhase::NonDcDs => plain_chunks(m),
        RenderPhase::DcDsIter0 { dc_ds_tick } => iter0_chunks(m, dc_ds_tick),
        RenderPhase::DcDsIter1 { dc_ds_tick: _, global_repeat } => iter1_chunks(m, global_repeat.iter1_set()),
    }
}

/// A region can be played in a phase.
pub open spec fn phase_ok(m: RegionModel, phase: RenderPhase) -> bool {
    match phase {
        RenderPhase::NonDcDs => true,
        RenderPhase::DcDsIter0 { dc_ds_tick } => iter0_ok(m, dc_ds_tick),
        RenderPhase::DcDsIter1 { dc_ds_tick: _, global_repeat: _ } => iter1_ok(m),
    }
}

/// A part of a score that can be played out as chunks.
pub trait Region {
    /// The chunks the region plays.
    spec fn chunks_spec(&self) -> Seq<Chunk>;

    /// The region can be played.
    spec fn chunks_ok(&self) -> bool;

    /// The ticks of the region played after a jump back.
    spec fn iter1_spec(&self) -> Set<u32>;

    /// Those ticks make an interval set.
    spec fn iter1_spec_ok(&self) -> bool;

    fn to_chunks(&self) -> (r: Vec<Chunk>)
        requires
            self.chunks_ok(),
        ensures
            r@ == self.chunks_spec(),
    ;

    fn to_iter1_interval_set(&self) -> (r: TickSet)
        requires
            self.iter1_spec_ok(),
        ensures
            runs_canonical(interval_runs(r)),
            tick_set(r) == self.iter1_spec(),
    ;
}

/// A stretch of the score played once, `start_tick` included, `end_tick`
/// excluded.
#[derive(Debug, PartialEq, Eq, Clone, Copy, Structural)]
pub struct SequenceRegion {
    start_tick: u32,
    end_tick: u32,
}

/// A stretch of the score played twice.
#[derive(Debug, PartialEq, Eq, Clone, Copy, Structural)]
pub struct RepeatRegion {
    region: SequenceRegion,
}

/// A common part with variation endings: the common part is played before
/// each ending in turn.
#[derive(Debug)]
pub struct VariationRegion {
    common: SequenceRegion,
    variations: Vec<SequenceRegion>,
}

/// A region that a compound region holds.
#[derive(Debug)]
pub enum SimpleRegion {
    Sequence(SequenceRegion),
    Repeat(RepeatRegion),
    Variation(VariationRegion),
}

/// The regions of a whole score, one after the other, with its jump back.
#[derive(Debug)]
pub struct CompoundRegion {
    global_repeat: Option<GlobalRepeat>,
    regions: Vec<SimpleRegion>,
}

impl SequenceRegion {
    pub closed spec fn pair(self) -> (u32, u32) {
        (self.start_tick, self.end_tick)
    }

    /// The region from `start_tick` up to `end_tick`.
    pub fn new(start_tick: u32, end_tick: u32) -> (r: SequenceRegion)
        ensures
            r.pair() == (start_tick, end_tick),
    {
        SequenceRegion { start_tick, end_tick }
    }

    pub open spec fn model(self) -> RegionModel {
        RegionModel::Sequence { start: self.pair().0, end: self.pair().1 }
    }

    /// The chunks of this region in a phase.
    pub fn render_chunks(&self, phase: &RenderPhase) -> (r: Vec<Chunk>)
        requires
            phase_ok(self.model(), *phase),
        ensures
            r@ == phase_chunks(self.model(), *phase),
    {
        match phase {
            RenderPhase::NonDcDs => vec![Chunk::new(self.start_tick, self.end_tick)],
            RenderPhase::DcDsIter0 { dc_ds_tick } => {
                if self.end_tick <= *dc_ds_tick {
                    vec![Chunk::new(self.start_tick, self.end_tick)]
                } else if self.start_tick < *dc_ds_tick && *dc_ds_tick < self.end_tick {
                    vec![Chunk::new(self.start_tick, *dc_ds_tick)]
                } else {
                    vec![]
                }
            },
            RenderPhase::DcDsIter1 { dc_ds_tick: _, global_repeat } => {
                let set = self.to_iter1_interval_set();
                iter1_chunks_of(&set, global_repeat)
            },
        }
    }
}

impl Region for SequenceRegion {
    open spec fn chunks_spec(&self) -> Seq<Chunk> {
        plain_chunks(self.model())
    }

    open spec fn chunks_ok(&self) -> bool {
        true
    }

    open spec fn iter1_spec(&self) -> Set<u32> {
        iter1_set_of(self.model())
    }

    open spec fn iter1_spec_ok(&self) -> bool {
        iter1_ok(self.model())
    }

    fn to_chunks(&self) -> (r: Vec<Chunk>) {
        self.render_chunks(&RenderPhase::NonDcDs)
    }

    fn to_iter1_interval_set(&self) -> (r: TickSet) {
        range_tick_set(self.start_tick, self.end_tick)
    }
}

impl RepeatRegion {
    pub closed spec fn pair(self) -> (u32, u32) {
        self.region.pair()
    }

    /// The region from `start_tick` up to `end_tick`, played twice.
    pub fn new(start_tick: u32, end_tick: u32) -> (r: RepeatRegion)
        ensures
            r.pair() == (start_tick, end_tick),
    {
        RepeatRegion { region: SequenceRegion::new(start_tick, end_tick) }
    }

    pub open spec fn model(self) -> RegionModel {
        RegionModel::Repeat { start: self.pair().0, end: self.pair().1 }
    }

    /// The chunks of this region in a phase.
    pub fn render_chunks(&self, phase: &RenderPhase) -> (r: Vec<Chunk>)
        requires
            phase_ok(self.model(), *phase),
        ensures
            r@ == phase_chunks(self.model(), *phase),
    {
        match phase {
            RenderPhase::NonDcDs => self.full(),
            RenderPhase::DcDsIter0 { dc_ds_tick } => {
                if self.region.end_tick <= *dc_ds_tick {
                    self.full()
                } else {
                    vec![]
                }
            },
            RenderPhase::DcDsIter1 { dc_ds_tick: _, global_repeat } => {
                let set = self.to_iter1_interval_set();
                iter1_chunks_of(&set, global_repeat)
            },
        }
    }

    /// The region twice.
    fn full(&self) -> (r: Vec<Chunk>)
        ensures
            r@ == plain_chunks(self.model()),
    {
        let mut chunks: Vec<Chunk> = Vec::with_capacity(2);
        chunks.push(Chunk::new(self.region.start_tick, self.region.end_tick));
        chunks.push(Chunk::new(self.region.start_tick, self.region.end_tick));
        proof { assert(chunks@ =~= plain_chunks(self.model())); }
        chunks
    }
}

impl Region for RepeatRegion {
    open spec fn chunks_spec(&self) -> Seq<Chunk> {
        plain_chunks(self.model())
    }

    open spec fn chunks_ok(&self) -> bool {
        true
    }

    open spec fn iter1_spec(&self) -> Set<u32> {
        iter1_set_of(self.model())
    }

    open spec fn iter1_spec_ok(&self) -> bool {
        iter1_ok(self.model())
    }

    fn to_chunks(&self) -> (r: Vec<Chunk>) {
        self.render_chunks(&RenderPhase::NonDcDs)
    }

    fn to_iter1_interval_set(&self) -> (r: TickSet) {
        range_tick_set(self.region.start_tick, self.region.end_tick)
    }
}

impl VariationRegion {
    pub closed spec fn common_pair(self) -> (u32, u32) {
        self.common.pair()
    }

    pub closed spec fn variation_pairs(self) -> Seq<(u32, u32)> {
        self.variations@.map_values(|v: SequenceRegion| v.pair())
    }

    pub open spec fn model(self) -> RegionModel {
        RegionModel::Variation { common: self.common_pair(), variations: self.variation_pairs() }
    }

    /// The common part from `start_tick` up to the first ending; the endings
    /// start at `region_start_ticks` and the last ends at `end_tick`.
    pub fn new(start_tick: u32, region_start_ticks: &Vec<u32>, end_tick: u32) -> (r: VariationRegion)
        requires
            region_start_ticks.len() > 0,
        ensures
            r.model() == variation_model(start_tick, region_start_ticks@, end_tick),
    {
        let n = region_start_ticks.len();
        let mut variations: Vec<SequenceRegion> = Vec::new();
        let mut i: usize = 0;
        while i + 1 < n
            invariant
                n == region_start_ticks.len(),
                n > 0,
                i + 1 <= n,
                variations.len() == i,
                forall|j: int| 0 <= j < i ==> (#[trigger] variations@[j]).pair() == (region_start_ticks@[j], region_start_ticks@[j + 1]),
            decreases n - i,
        {
            variations.push(SequenceRegion::new(region_start_ticks[i], region_start_ticks[i + 1]));
            i = i + 1;
        }
        variations.push(SequenceRegion::new(region_start_ticks[n - 1], end_tick));
        let r = VariationRegion { common: SequenceRegion::new(start_tick, region_start_ticks[0]), variations };
        proof {
            assert(r.variation_pairs() =~= variation_model(start_tick, region_start_ticks@, end_tick)->variations);
        }
        r
    }

    /// The chunks of this region in a phase.
    pub fn render_chunks(&self, phase: &RenderPhase) -> (r: Vec<Chunk>)
        requires
            phase_ok(self.model(), *phase),
        ensures
            r@ == phase_chunks(self.model(), *phase),
    {
        match phase {
            RenderPhase::NonDcDs => self.full(),
            RenderPhase::DcDsIter0 { dc_ds_tick } => {
                if *dc_ds_tick <= self.common.start_tick {
                    vec![]
                } else {
                    proof { assert(self.variations@.last().pair() == self.variation_pairs().last()); }
                    self.full()
                }
            },
            RenderPhase::DcDsIter1 { dc_ds_tick: _, global_repeat } => {
                let set = self.to_iter1_interval_set();
                iter1_chunks_of(&set, global_repeat)
            },
        }
    }

    /// The common part before each ending in turn.
    fn full(&self) -> (r: Vec<Chunk>)
        ensures
            r@ == plain_chunks(self.model()),
    {
        let mut chunks: Vec<Chunk> = Vec::new();
        let common = Chunk::new(self.common.start_tick, self.common.end_tick);
        let mut i: usize = 0;
        while i < self.variations.len()
            invariant
                i <= self.variations.len(),
                common == pair_chunk(self.common_pair()),
                chunks@ == variation_chunks(self.common_pair(), self.variation_pairs().take(i as int)),
            decreases self.variations.len() - i,
        {
            let v = self.variations[i];
            chunks.push(common);
            chunks.push(Chunk::new(v.start_tick, v.end_tick));
            proof {
                let vs = self.variation_pairs();
                assert(vs.take(i + 1).drop_last() =~= vs.take(i as int));
                assert(vs[i as int] == v.pair());
            }
            i = i + 1;
        }
        proof { assert(self.variation_pairs().take(self.variations.len() as int) =~= self.variation_pairs()); }
        chunks
    }
}

/// The variation region from `start` whose endings start at `rst`, the last
/// ending up to `end`.
pub open spec fn variation_model(start: u32, rst: Seq<u32>, end: u32) -> RegionModel {
    RegionModel::Variation {
        common: (start, rst[0]),
        variations: Seq::new(rst.len(), |i: int| (rst[i], if i + 1 < rst.len() { rst[i + 1] } else { end })),
    }
}

impl Region for VariationRegion {
    open spec fn chunks_spec(&self) -> Seq<Chunk> {
        plain_chunks(self.model())
    }

    open spec fn chunks_ok(&self) -> bool {
        true
    }

    open spec fn iter1_spec(&self) -> Set<u32> {
        iter1_set_of(self.model())
    }

    open spec fn iter1_spec_ok(&self) -> bool {
        iter1_ok(self.model())
    }

    fn to_chunks(&self) -> (r: Vec<Chunk>) {
        self.render_chunks(&RenderPhase::NonDcDs)
    }

    fn to_iter1_interval_set(&self) -> (r: TickSet) {
        let last = self.variations.len() - 1;
        proof { assert(self.variations@[last as int].pair() == self.variation_pairs().last()); }
        let a = range_tick_set(self.common.start_tick, self.common.end_tick);
        let b = range_tick_set(self.variations[last].start_tick, self.variations[last].end_tick);
        let r = tick_set_union(&a, &b);
        proof { assert(tick_set(r) =~= iter1_set_of(self.model())); }
        r
    }
}

impl SimpleRegion {
    pub open spec fn model(self) -> RegionModel {
        match self {
            SimpleRegion::Sequence(s) => s.model(),
            SimpleRegion::Repeat(r) => r.model(),
            SimpleRegion::Variation(v) => v.model(),
        }
    }

    /// The chunks of this region in a phase.
    pub fn render_chunks(&self, phase: &RenderPhase) -> (r: Vec<Chunk>)
        requires
            phase_ok(self.model(), *phase),
        ensures
            r@ == phase_chunks(self.model(), *phase),
    {
        match self {
            SimpleRegion::Sequence(s) => s.render_chunks(phase),
            SimpleRegion::Repeat(r) => r.render_chunks(phase),
            SimpleRegion::Variation(v) => v.render_chunks(phase),
        }
    }

    fn to_iter1_interval_set(&self) -> (r: TickSet)
        requires
            iter1_ok(self.model()),
        ensures
            runs_canonical(interval_runs(r)),
            tick_set(r) == iter1_set_of(self.model()),
    {
        match self {
            SimpleRegion::Sequence(s) => s.to_iter1_interval_set(),
            SimpleRegion::Repeat(r) => r.to_iter1_interval_set(),
            SimpleRegion::Variation(v) => v.to_iter1_interval_set(),
        }
    }
}

/// The chunks of a whole score: without a jump back, each region played
/// plainly; with one, each region up to the jump, then each region again as
/// far as it is played after the jump.
pub open spec fn compound_chunks(rs: Seq<RegionModel>, g: Option<GlobalRepeat>) -> Seq<Chunk> {
    match g {
        None => concat_chunks(rs, |m: RegionModel| plain_chunks(m)),
        Some(gr) => concat_chunks(rs, |m: RegionModel| iter0_chunks(m, ds_dc_tick(gr.ds_dc_of())))
            + concat_chunks(rs, |m: RegionModel| iter1_chunks(m, gr.iter1_set())),
    }
}

/// The regions of a score can be played with its jump back.
pub open spec fn compound_ok(rs: Seq<RegionModel>, g: Option<GlobalRepeat>) -> bool {
    match g {
        None => true,
        Some(gr) => forall|i: int| 0 <= i < rs.len() ==> iter0_ok(#[trigger] rs[i], ds_dc_tick(gr.ds_dc_of())) && iter1_ok(rs[i]),
    }
}

/// The ticks of regions played after a jump back, all together.
pub open spec fn union_iter1(rs: Seq<RegionModel>) -> Set<u32>
    decreases rs.len(),
{
    if rs.len() == 0 {
        Set::empty()
    } else {
        union_iter1(rs.drop_last()).union(iter1_set_of(rs.last()))
    }
}

impl CompoundRegion {
    pub closed spec fn regions_model(self) -> Seq<RegionModel> {
        self.regions@.map_values(|r: SimpleRegion| r.model())
    }

    pub closed spec fn global_repeat_of(self) -> Option<GlobalRepeat> {
        self.global_repeat
    }

    /// The chunks of all regions in a phase, one after the other.
    fn render_all(&self, phase: &RenderPhase) -> (r: Vec<Chunk>)
        requires
            forall|i: int| 0 <= i < self.regions@.len() ==> phase_ok(#[trigger] self.regions_model()[i], *phase),
        ensures
            r@ == concat_chunks(self.regions_model(), |m: RegionModel| phase_chunks(m, *phase)),
    {
        let ghost rs = self.regions_model();
        let ghost f = |m: RegionModel| phase_chunks(m, *phase);
        let mut chunks: Vec<Chunk> = Vec::new();
        let mut i: usize = 0;
        while i < self.regions.len()
            invariant
                i <= self.regions.len(),
                rs == self.regions_model(),
                f == (|m: RegionModel| phase_chunks(m, *phase)),
                forall|j: int| 0 <= j < self.regions@.len() ==> phase_ok(#[trigger] rs[j], *phase),
                chunks@ == concat_chunks(rs.take(i as int), f),
            decreases self.regions.len() - i,
        {
            assert(rs[i as int] == self.regions@[i as int].model());
            let mut c = self.regions[i].render_chunks(phase);
            chunks.append(&mut c);
            proof {
                assert(rs.take(i + 1).drop_last() =~= rs.take(i as int));
                assert(rs.take(i + 1).last() == rs[i as int]);
            }
            i = i + 1;
        }
        proof { assert(rs.take(self.regions.len() as int) =~= rs); }
        chunks
    }
}

impl Region for CompoundRegion {
    open spec fn chunks_spec(&self) -> Seq<Chunk> {
        compound_chunks(self.regions_model(), self.global_repeat_of())
    }

    open spec fn chunks_ok(&self) -> bool {
        compound_ok(self.regions_model(), self.global_repeat_of())
    }

    open spec fn iter1_spec(&self) -> Set<u32> {
        match self.global_repeat_of() {
            None => union_iter1(self.regions_model()),
            Some(gr) => union_iter1(self.regions_model()).intersect(gr.iter1_set()),
        }
    }

    open spec fn iter1_spec_ok(&self) -> bool {
        forall|i: int| 0 <= i < self.regions_model().len() ==> iter1_ok(#[trigger] self.regions_model()[i])
    }

    fn to_chunks(&self) -> (r: Vec<Chunk>) {
        match &self.global_repeat {
            Some(gr) => {
                let dc = gr.ds_dc().tick();
                let phase0 = RenderPhase::DcDsIter0 { dc_ds_tick: dc };
                let mut chunks = self.render_all(&phase0);
                let phase1 = RenderPhase::DcDsIter1 { dc_ds_tick: dc, global_repeat: gr };
                let mut rest = self.render_all(&phase1);
                chunks.append(&mut rest);
                proof {
                    let rs = self.regions_model();
                    assert((|m: RegionModel| phase_chunks(m, phase0)) =~= (|m: RegionModel| iter0_chunks(m, ds_dc_tick(gr.ds_dc_of()))));
                    assert((|m: RegionModel| phase_chunks(m, phase1)) =~= (|m: RegionModel| iter1_chunks(m, gr.iter1_set())));
                }
                chunks
            },
            None => {
                let phase = RenderPhase::NonDcDs;
                let chunks = self.render_all(&phase);
                proof {
                    assert((|m: RegionModel| phase_chunks(m, phase)) =~= (|m: RegionModel| plain_chunks(m)));
                }
                chunks
            },
        }
    }

    fn to_iter1_interval_set(&self) -> (r: TickSet) {
        let ghost rs = self.regions_model();
        let mut union = tick_set_from_pairs(Vec::new());
        proof { assert(tick_set(union) =~= union_iter1(rs.take(0))); }
        let mut i: usize = 0;
        while i < self.regions.len()
            invariant
                i <= self.regions.len(),
                rs == self.regions_model(),
                forall|j: int| 0 <= j < rs.len() ==> iter1_ok(#[trigger] rs[j]),
                runs_canonical(interval_runs(union)),
                tick_set(union) == union_iter1(rs.take(i as int)),
            decreases self.regions.len() - i,
        {
            assert(rs[i as int] == self.regions@[i as int].model());
            let e = self.regions[i].to_iter1_interval_set();
            union = tick_set_union(&union, &e);
            proof {
                assert(rs.take(i + 1).drop_last() =~= rs.take(i as int));
                assert(rs.take(i + 1).last() == rs[i as int]);
            }
            i = i + 1;
        }
        proof { assert(rs.take(self.regions.len() as int) =~= rs); }
        match &self.global_repeat {
            Some(gr) => tick_set_intersection(&union, gr.iter1_interval_set()),
            None => union,
        }
    }
}

/// Where reading the bars stands: before any repeat, in a plain stretch, in a
/// repeated stretch, or in a variation region whose endings start at the
/// given ticks.
pub enum RenderState {
    Idle,
    Plain { start_tick: u32 },
    RepeatStart { start_tick: u32 },
    Variation { start_tick: u32, region_start_ticks: Seq<u32> },
}

/// The regions found so far, where reading stands, and the global repeat
/// symbols found so far.
pub struct RenderAcc {
    pub regions: Seq<RegionModel>,
    pub state: RenderState,
    pub builder: BuilderView,
}

/// Reading goes on with these regions, state and builder.
pub open spec fn render_next(regions: Seq<RegionModel>, state: RenderState, builder: BuilderView) -> Result<RenderAcc, Option<RenderRegionError>> {
    Ok(RenderAcc { regions, state, builder })
}

/// Reading stops with an error.
pub open spec fn render_fail(e: RenderRegionError) -> Result<RenderAcc, Option<RenderRegionError>> {
    Err(Some(e))
}

/// A bar opens the first variation ending, or one with another number.
pub open spec fn first_variation(
    regions: Seq<RegionModel>,
    start: u32,
    b: BuilderView,
    tick: u32,
    idx: VarIndex,
) -> Result<RenderAcc, Option<RenderRegionError>> {
    if idx != VarIndex::VI1 {
        render_fail(RenderRegionError::InvalidRegionIndex { tick, actual: idx, expected: VarIndex::VI1 })
    } else {
        render_next(regions, RenderState::Variation { start_tick: start, region_start_ticks: seq![tick] }, b)
    }
}

/// One bar read in a state, after its global symbols went into `b`.
/// `Err(None)` stands for a bar the reading cannot take in.
pub open spec fn state_step(regions: Seq<RegionModel>, state: RenderState, b: BuilderView, bar: Bar) -> Result<RenderAcc, Option<RenderRegionError>> {
    let tick = bar.start_tick;
    let rs = bar.repeats@;
    let start_sym = rs.contains(Repeat::Start);
    let end_sym = rs.contains(Repeat::End);
    match state {
        RenderState::Idle => if start_sym && end_sym {
            render_next(regions.push(RegionModel::Repeat { start: 0, end: tick }), RenderState::RepeatStart { start_tick: tick }, b)
        } else if end_sym {
            render_next(regions.push(RegionModel::Repeat { start: 0, end: tick }), RenderState::Plain { start_tick: tick }, b)
        } else if start_sym {
            render_next(regions.push(RegionModel::Sequence { start: 0, end: tick }), RenderState::RepeatStart { start_tick: tick }, b)
        } else {
            match region_index_of(rs) {
                Some(idx) => first_variation(regions, 0, b, tick, idx),
                None => render_next(regions, state, b),
            }
        },
        RenderState::Plain { start_tick } => if end_sym {
            render_fail(RenderRegionError::OrphanRepeatEnd { tick })
        } else if start_sym {
            render_next(regions.push(RegionModel::Sequence { start: start_tick, end: tick }), RenderState::RepeatStart { start_tick: tick }, b)
        } else {
            render_next(regions, state, b)
        },
        RenderState::RepeatStart { start_tick } => if start_sym && end_sym {
            render_next(regions.push(RegionModel::Repeat { start: start_tick, end: tick }), RenderState::RepeatStart { start_tick: tick }, b)
        } else if end_sym {
            render_next(regions.push(RegionModel::Repeat { start: start_tick, end: tick }), RenderState::Plain { start_tick: tick }, b)
        } else if start_sym {
            render_fail(RenderRegionError::DuplicatedRepeatStart { tick })
        } else if rs.contains(Repeat::Dc) || rs.contains(Repeat::Ds) {
            render_fail(RenderRegionError::DcDsWhileRepeat { tick })
        } else {
            match region_index_of(rs) {
                Some(idx) => first_variation(regions, start_tick, b, tick, idx),
                None => render_next(regions, state, b),
            }
        },
        RenderState::Variation { start_tick, region_start_ticks } => if end_sym {
            render_fail(RenderRegionError::RepeatInVariation { tick })
        } else {
            match region_index_of(rs) {
                Some(ri) => if rs.contains(Repeat::Dc) || rs.contains(Repeat::Ds) {
                    render_fail(RenderRegionError::DcDsWhileVariation { tick })
                } else {
                    let cur: int = region_start_ticks.len() as int;
                    let idx = var_index_value(ri);
                    if idx == cur {
                        render_next(regions, state, b)
                    } else if idx == cur + 1 {
                        render_next(regions, RenderState::Variation { start_tick, region_start_ticks: region_start_ticks.push(tick) }, b)
                    } else {
                        match var_index_of(cur + 1int) {
                            Some(expected) => render_fail(RenderRegionError::InvalidRegionIndex { tick, actual: ri, expected }),
                            None => Err(None),
                        }
                    }
                },
                None => if b.segno is Some && region_start_ticks[0] <= b.segno->0 && b.segno->0 < region_start_ticks.last() {
                    render_fail(RenderRegionError::SegnoWhildVariation { tick })
                } else {
                    render_next(
                        regions.push(variation_model(start_tick, region_start_ticks, tick)),
                        if start_sym { RenderState::RepeatStart { start_tick: tick } } else { RenderState::Plain { start_tick: tick } },
                        b,
                    )
                },
            }
        },
    }
}

/// One bar read: its global symbols first, then its place in the regions.
pub open spec fn render_step(acc: RenderAcc, bar: Bar) -> Result<RenderAcc, Option<RenderRegionError>> {
    if !on_bar_ok(acc.builder, bar) {
        Err(None)
    } else {
        match on_bar_spec(acc.builder, bar) {
            Err(e) => Err(Some(e)),
            Ok(b) => state_step(acc.regions, acc.state, b, bar),
        }
    }
}

/// The bars read one by one, stopping at the first error.
pub open spec fn render_fold(tune_rhythm: Rhythm, bars: Seq<Bar>) -> Result<RenderAcc, Option<RenderRegionError>>
    decreases bars.len(),
{
    if bars.len() == 0 {
        render_next(Seq::empty(), RenderState::Idle, initial_builder(tune_rhythm))
    } else {
        match render_fold(tune_rhythm, bars.drop_last()) {
            Ok(acc) => render_step(acc, bars.last()),
            Err(e) => Err(e),
        }
    }
}

/// The regions of a score end with a plain stretch up to the last tick.
pub open spec fn final_regions(acc: RenderAcc) -> Seq<RegionModel> {
    match acc.state {
        RenderState::Plain { start_tick } => acc.regions.push(RegionModel::Sequence { start: start_tick, end: u32::MAX }),
        _ => acc.regions.push(RegionModel::Sequence { start: 0, end: u32::MAX }),
    }
}

/// The bars can be read without a panic: every bar is taken in, and the
/// global repeat can be built at the end.
pub open spec fn render_ok(tune_rhythm: Rhythm, bars: Seq<Bar>) -> bool {
    match render_fold(tune_rhythm, bars) {
        Err(None) => false,
        Err(Some(_)) => true,
        Ok(acc) => match acc.state {
            RenderState::Idle => build_ok(acc.builder),
            RenderState::Plain { start_tick: _ } => build_ok(acc.builder),
            _ => true,
        },
    }
}

/// What `render_region` gives for the bars.
pub open spec fn render_result(
    tune_rhythm: Rhythm,
    bars: Seq<Bar>,
    r: Result<(CompoundRegion, Vec<RenderRegionWarning>), RenderRegionError>,
) -> bool {
    match render_fold(tune_rhythm, bars) {
        Err(Some(e)) => r == Err::<(CompoundRegion, Vec<RenderRegionWarning>), RenderRegionError>(e),
        Err(None) => true,
        Ok(acc) => match acc.state {
            RenderState::RepeatStart { start_tick } =>
                r == Err::<(CompoundRegion, Vec<RenderRegionWarning>), RenderRegionError>(RenderRegionError::NoRepeatEnd { tick: start_tick }),
            RenderState::Variation { start_tick: _, region_start_ticks } =>
                r == Err::<(CompoundRegion, Vec<RenderRegionWarning>), RenderRegionError>(
                    RenderRegionError::VariationNotClosed { tick: region_start_ticks.last() }),
            _ => match build_spec(acc.builder) {
                Err(e) => r == Err::<(CompoundRegion, Vec<RenderRegionWarning>), RenderRegionError>(e),
                Ok(want) => {
                    &&& r is Ok
                    &&& r->Ok_0.0.regions_model() == final_regions(acc)
                    &&& r->Ok_0.1@ == build_warnings(acc.builder)
                    &&& global_repeat_matches(r->Ok_0.0.global_repeat_of(), want)
                },
            },
        },
    }
}

/// An error or panic while reading a prefix of the bars stays to the end.
proof fn lemma_fold_stops(tune_rhythm: Rhythm, bars: Seq<Bar>, i: int)
    requires
        0 <= i <= bars.len(),
        render_fold(tune_rhythm, bars.take(i)) is Err,
    ensures
        render_fold(tune_rhythm, bars) == render_fold(tune_rhythm, bars.take(i)),
    decreases bars.len() - i,
{
    if i < bars.len() {
        assert(bars.take(i + 1).drop_last() =~= bars.take(i));
        lemma_fold_stops(tune_rhythm, bars, i + 1);
    } else {
        assert(bars.take(i) =~= bars);
    }
}

/// Where reading the bars stands, with the ticks where the variation endings
/// start.
enum RenderRegionState {
    Idle,
    Plain { start_tick: u32 },
    RepeatStart { start_tick: u32 },
    Variation { start_tick: u32, region_start_ticks: Vec<u32> },
}

impl View for RenderRegionState {
    type V = RenderState;

    closed spec fn view(&self) -> RenderState {
        match self {
            RenderRegionState::Idle => RenderState::Idle,
            RenderRegionState::Plain { start_tick } => RenderState::Plain { start_tick: *start_tick },
            RenderRegionState::RepeatStart { start_tick } => RenderState::RepeatStart { start_tick: *start_tick },
            RenderRegionState::Variation { start_tick, region_start_ticks } =>
                RenderState::Variation { start_tick: *start_tick, region_start_ticks: region_start_ticks@ },
        }
    }
}

/// Reads the repeat symbols of the bars, in order, into the regions of the
/// score and its global repeat, with the warnings found.
pub fn render_region(tune_rhythm: Rhythm, bars: &[Bar]) -> (r: Result<(CompoundRegion, Vec<RenderRegionWarning>), RenderRegionError>)
    requires
        render_ok(tune_rhythm, bars@),
    ensures
        render_result(tune_rhythm, bars@, r),
{
    let mut regions: Vec<SimpleRegion> = Vec::new();
    let mut state = RenderRegionState::Idle;
    let mut global_repeat = GlobalRepeatBuilder::new(tune_rhythm);
    let mut i: usize = 0;
    proof {
        assert(bars@.take(0) =~= Seq::<Bar>::empty());
        assert(regions@.map_values(|x: SimpleRegion| x.model()) =~= Seq::<RegionModel>::empty());
    }
    while i < bars.len()
        invariant
            i <= bars.len(),
            render_ok(tune_rhythm, bars@),
            render_fold(tune_rhythm, bars@.take(i as int)) == render_next(
                regions@.map_values(|x: SimpleRegion| x.model()), state@, global_repeat@),
            state matches RenderRegionState::Variation { start_tick: _, region_start_ticks }
                ==> 1 <= region_start_ticks.len() <= 4,
        decreases bars.len() - i,
    {
        let bar = &bars[i];
        let ghost acc = RenderAcc { regions: regions@.map_values(|x: SimpleRegion| x.model()), state: state@, builder: global_repeat@ };
        proof {
            assert(bars@.take(i + 1).drop_last() =~= bars@.take(i as int));
            assert(bars@.take(i + 1).last() == *bar);
            if render_fold(tune_rhythm, bars@.take(i + 1)) is Err {
                lemma_fold_stops(tune_rhythm, bars@, i + 1);
            }
        }
        global_repeat = match global_repeat.on_bar(bar) {
            Ok(b) => b,
            Err(e) => {
                proof { lemma_fold_stops(tune_rhythm, bars@, i + 1); }
                return Err(e);
            },
        };
        let tick = bar.base_start_tick();
        let ghost models = regions@.map_values(|x: SimpleRegion| x.model());
        let ghost want = state_step(models, state@, global_repeat@, *bar);
        let next_state = match state {
            RenderRegionState::Idle => {
                if bar.repeats.contains(Repeat::Start) && bar.repeats.contains(Repeat::End) {
                    regions.push(SimpleRegion::Repeat(RepeatRegion::new(0, tick)));
                    RenderRegionState::RepeatStart { start_tick: tick }
                } else if bar.repeats.contains(Repeat::End) {
                    regions.push(SimpleRegion::Repeat(RepeatRegion::new(0, tick)));
                    RenderRegionState::Plain { start_tick: tick }
                } else if bar.repeats.contains(Repeat::Start) {
                    regions.push(SimpleRegion::Sequence(SequenceRegion::new(0, tick)));
                    RenderRegionState::RepeatStart { start_tick: tick }
                } else if let Some(idx) = bar.repeats.region_index() {
                    if idx != VarIndex::VI1 {
                        proof { lemma_fold_stops(tune_rhythm, bars@, i + 1); }
                        return Err(RenderRegionError::InvalidRegionIndex { tick, actual: idx, expected: VarIndex::VI1 });
                    }
                    let rst = vec![tick];
                    proof { assert(rst@ =~= seq![tick]); }
                    RenderRegionState::Variation { start_tick: 0, region_start_ticks: rst }
                } else {
                    RenderRegionState::Idle
                }
            },
            RenderRegionState::Plain { start_tick } => {
                if bar.repeats.contains(Repeat::End) {
                    proof { lemma_fold_stops(tune_rhythm, bars@, i + 1); }
                    return Err(RenderRegionError::OrphanRepeatEnd { tick });
                } else if bar.repeats.contains(Repeat::Start) {
                    regions.push(SimpleRegion::Sequence(SequenceRegion::new(start_tick, tick)));
                    RenderRegionState::RepeatStart { start_tick: tick }
                } else {
                    RenderRegionState::Plain { start_tick }
                }
            },
            RenderRegionState::RepeatStart { start_tick } => {
                if bar.repeats.contains(Repeat::Start) && bar.repeats.contains(Repeat::End) {
                    regions.push(SimpleRegion::Repeat(RepeatRegion::new(start_tick, tick)));
                    RenderRegionState::RepeatStart { start_tick: tick }
                } else if bar.repeats.contains(Repeat::End) {
                    regions.push(SimpleRegion::Repeat(RepeatRegion::new(start_tick, tick)));
                    RenderRegionState::Plain { start_tick: tick }
                } else if bar.repeats.contains(Repeat::Start) {
                    proof { lemma_fold_stops(tune_rhythm, bars@, i + 1); }
                    return Err(RenderRegionError::DuplicatedRepeatStart { tick });
                } else if bar.repeats.contains(Repeat::Dc) || bar.repeats.contains(Repeat::Ds) {
                    proof { lemma_fold_stops(tune_rhythm, bars@, i + 1); }
                    return Err(RenderRegionError::DcDsWhileRepeat { tick });
                } else if let Some(idx) = bar.repeats.region_index() {
                    if idx != VarIndex::VI1 {
                        proof { lemma_fold_stops(tune_rhythm, bars@, i + 1); }
                        return Err(RenderRegionError::InvalidRegionIndex { tick, actual: idx, expected: VarIndex::VI1 });
                    }
                    let rst = vec![tick];
                    proof { assert(rst@ =~= seq![tick]); }
                    RenderRegionState::Variation { start_tick, region_start_ticks: rst }
                } else {
                    RenderRegionState::RepeatStart { start_tick }
                }
            },
            RenderRegionState::Variation { start_tick, region_start_ticks } => {
                if bar.repeats.contains(Repeat::End) {
                    proof { lemma_fold_stops(tune_rhythm, bars@, i + 1); }
                    return Err(RenderRegionError::RepeatInVariation { tick });
                } else if let Some(ri) = bar.repeats.region_index() {
                    if bar.repeats.contains(Repeat::Dc) || bar.repeats.contains(Repeat::Ds) {
                        proof { lemma_fold_stops(tune_rhythm, bars@, i + 1); }
                        return Err(RenderRegionError::DcDsWhileVariation { tick });
                    }
                    let current_idx = region_start_ticks.len() as u8;
                    let idx = ri.value();
                    if idx == current_idx {
                        RenderRegionState::Variation { start_tick, region_start_ticks }
                    } else if idx == current_idx + 1 {
                        let mut rst = region_start_ticks;
                        rst.push(tick);
                        RenderRegionState::Variation { start_tick, region_start_ticks: rst }
                    } else {
                        proof { lemma_fold_stops(tune_rhythm, bars@, i + 1); }
                        let expected = match VarIndex::from_value(current_idx + 1) {
                            Ok(v) => v,
                            Err(_) => {
                                proof { assert(false); }
                                VarIndex::VI1
                            },
                        };
                        return Err(RenderRegionError::InvalidRegionIndex { tick, actual: ri, expected });
                    }
                } else {
                    if let Some(segno) = global_repeat.segno {
                        let last = region_start_ticks.len() - 1;
                        if region_start_ticks[0] <= segno && segno < region_start_ticks[last] {
                            proof { lemma_fold_stops(tune_rhythm, bars@, i + 1); }
                            return Err(RenderRegionError::SegnoWhildVariation { tick });
                        }
                    }
                    regions.push(SimpleRegion::Variation(VariationRegion::new(start_tick, &region_start_ticks, tick)));
                    if bar.repeats.contains(Repeat::Start) {
                        RenderRegionState::RepeatStart { start_tick: tick }
                    } else {
                        RenderRegionState::Plain { start_tick: tick }
                    }
                }
            },
        };
        proof {
            assert(render_fold(tune_rhythm, bars@.take(i + 1)) == render_step(acc, *bar));
            assert(render_step(acc, *bar) == want);
            assert(want is Ok);
            assert(next_state@ == want->Ok_0.state);
            assert(regions@.map_values(|x: SimpleRegion| x.model()) =~= want->Ok_0.regions);
        }
        state = next_state;
        i = i + 1;
    }
    proof { assert(bars@.take(bars.len() as int) =~= bars@); }
    match state {
        RenderRegionState::Idle => {
            regions.push(SimpleRegion::Sequence(SequenceRegion::new(0, u32::MAX)));
            let (gr, w) = match global_repeat.build() {
                Ok(x) => x,
                Err(e) => return Err(e),
            };
            let c = CompoundRegion { regions, global_repeat: gr };
            proof { assert(c.regions_model() =~= final_regions(render_fold(tune_rhythm, bars@)->Ok_0)); }
            Ok((c, w))
        },
        RenderRegionState::Plain { start_tick } => {
            regions.push(SimpleRegion::Sequence(SequenceRegion::new(start_tick, u32::MAX)));
            let (gr, w) = match global_repeat.build() {
                Ok(x) => x,
                Err(e) => return Err(e),
            };
            let c = CompoundRegion { regions, global_repeat: gr };
            proof { assert(c.regions_model() =~= final_regions(render_fold(tune_rhythm, bars@)->Ok_0)); }
            Ok((c, w))
        },
        RenderRegionState::RepeatStart { start_tick } => Err(RenderRegionError::NoRepeatEnd { tick: start_tick }),
        RenderRegionState::Variation { start_tick: _, region_start_ticks } => {
            let last = region_start_ticks.len() - 1;
            Err(RenderRegionError::VariationNotClosed { tick: region_start_ticks[last] })
        },
    }
}

/// The ticks from `start` up to `end`, excluded, as an interval set.
fn range_tick_set(start: u32, end: u32) -> (r: TickSet)
    requires
        start < end,
    ensures
        runs_canonical(interval_runs(r)),
        tick_set(r) == tick_range(start as int, end - 1),
{
    let pairs = vec![(start, end - 1)];
    let r = tick_set_from_pairs(pairs);
    proof {
        assert forall|t: u32| runs_set(pairs@).contains(t) <==> tick_range(start as int, end - 1).contains(t) by {
            if start <= t <= end - 1 {
                assert(pairs@[0].0 <= t <= pairs@[0].1);
            }
        }
        assert(runs_set(pairs@) =~= tick_range(start as int, end - 1));
    }
    r
}

/// The chunks played after the jump back of `global_repeat` of a region whose
/// ticks `set` holds.
fn iter1_chunks_of(set: &TickSet, global_repeat: &GlobalRepeat) -> (r: Vec<Chunk>)
    requires
        runs_canonical(interval_runs(*set)),
        !tick_set(*set).contains(u32::MAX),
    ensures
        r@ == runs_chunks(canonical_runs(global_repeat.iter1_set().intersect(tick_set(*set)))),
{
    let g = global_repeat.iter1_interval_set();
    let sections = tick_set_intersection(g, set);
    let runs = tick_set_runs(&sections);
    let ghost want = global_repeat.iter1_set().intersect(tick_set(*set));
    proof {
        lemma_canonical_runs_of(runs@);
        assert(tick_set(sections) =~= want);
    }
    let mut out: Vec<Chunk> = Vec::new();
    let mut i: usize = 0;
    while i < runs.len()
        invariant
            i <= runs.len(),
            runs@ == interval_runs(sections),
            runs_canonical(runs@),
            !runs_set(runs@).contains(u32::MAX),
            out@ == runs_chunks(runs@.take(i as int)),
        decreases runs.len() - i,
    {
        let (lo, hi) = runs[i];
        proof { lemma_runs_below_max(runs@, i as int); }
        out.push(Chunk::new(lo, hi + 1));
        proof {
            assert(runs@.take(i + 1) =~= runs@.take(i as int).push(runs@[i as int]));
            assert(runs_chunks(runs@.take(i + 1)) =~= runs_chunks(runs@.take(i as int)).push(Chunk::of(lo, (hi + 1) as u32)));
        }
        i = i + 1;
    }
    proof { assert(runs@.take(runs@.len() as int) =~= runs@); }
    out
}

} // verus!
