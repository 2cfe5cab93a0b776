use vstd::prelude::*;
use crate::rhythm::{Rhythm, rhythm_tick_len};
use crate::repeat::RenderRegionError;
use crate::bar::{Bar, Repeat};
use crate::have_start_tick::HaveBaseStartTick;
use crate::tick_set::{TickSet, tick_set, runs_canonical, interval_runs, runs_set, tick_range,
    tick_set_from_pairs};

verus! {

/// Coda signs found so far: one (a warning when it stays alone), or the sign
/// to jump from and the sign to jump to.
#[derive(Debug, PartialEq, Eq, Clone, Copy, Structural)]
pub enum Coda {
    One(u32),
    Two { from_tick: u32, to_tick: u32 },
}

/// A jump back: da capo (with the length of its bar) or dal segno.
#[derive(Debug, PartialEq, Eq, Clone, Copy, Structural)]
pub enum DsDc {
    Dc { tick: u32, len: u32 },
    Ds { tick: u32 },
}

pub open spec fn ds_dc_tick(d: DsDc) -> u32 {
    match d {
        DsDc::Dc { tick, len: _ } => tick,
        DsDc::Ds { tick } => tick,
    }
}

impl DsDc {
    /// Where the jump back stands.
    pub fn tick(self) -> (r: u32)
        ensures
            r == ds_dc_tick(self),
    {
        match self {
            DsDc::Dc { tick, len: _ } => tick,
            DsDc::Ds { tick } => tick,
        }
    }
}

/// Findings that do not stop playing out the repeats.
#[derive(Debug, PartialEq, Eq, Clone, Copy, Structural)]
pub enum RenderRegionWarning {
    /// A segno and a D.C.: the D.C. returns to the segno.
    SegnoAndDcFound { segno_tick: u32, dc_tick: u32 },
    /// A coda sign without a partner; it is ignored.
    OrphanCodaFound { coda_tick: u32 },
}

/// The jump back of a score and what is played after it: from the segno, up
/// to the fine, skipping from the first coda sign to the second.
#[derive(Debug, PartialEq, Eq)]
pub struct GlobalRepeat {
    ds_dc: DsDc,
    fine: Option<u32>,
    segno: u32,
    coda: Option<[u32; 2]>,
    iter1_interval_set: TickSet,
}

/// A coda pair as the two ticks.
pub open spec fn coda_pair(c: Option<[u32; 2]>) -> Option<(u32, u32)> {
    match c {
        Some(a) => Some((a@[0], a@[1])),
        None => None,
    }
}

/// The ticks played after the jump back: from `start` up to the fine (or the
/// end), leaving out the stretch from the first coda sign to the second.
pub open spec fn iter1_ticks(start: u32, fine: Option<u32>, coda: Option<(u32, u32)>) -> Set<u32> {
    let end: int = match fine {
        Some(f) => f as int,
        None => u32::MAX as int,
    };
    match coda {
        Some((from, to)) => tick_range(start as int, from - 1).union(tick_range(to as int, end - 1)),
        None => tick_range(start as int, end - 1),
    }
}

/// The ticks of `iter1_ticks` can be made into an interval set: the two
/// stretches around a coda are not empty.
pub open spec fn iter1_args_ok(start: u32, fine: Option<u32>, coda: Option<(u32, u32)>) -> bool {
    let end: int = match fine {
        Some(f) => f as int,
        None => u32::MAX as int,
    };
    match coda {
        Some((from, to)) => 1 <= from && start <= from - 1 && to <= end - 1,
        None => true,
    }
}

impl GlobalRepeat {
    #[verifier::type_invariant]
    closed spec fn inv(self) -> bool {
        runs_canonical(interval_runs(self.iter1_interval_set))
    }

    pub closed spec fn ds_dc_of(self) -> DsDc {
        self.ds_dc
    }

    pub closed spec fn fine_of(self) -> Option<u32> {
        self.fine
    }

    pub closed spec fn segno_of(self) -> u32 {
        self.segno
    }

    pub closed spec fn coda_of(self) -> Option<(u32, u32)> {
        coda_pair(self.coda)
    }

    /// The tick set played after the jump back.
    pub closed spec fn iter1_tick_set(self) -> TickSet {
        self.iter1_interval_set
    }

    /// The ticks played after the jump back.
    pub open spec fn iter1_set(self) -> Set<u32> {
        tick_set(self.iter1_tick_set())
    }

    /// Where playing resumes after the jump back.
    pub fn segno(&self) -> (r: u32)
        ensures
            r == self.segno_of(),
    {
        self.segno
    }

    pub fn ds_dc(&self) -> (r: DsDc)
        ensures
            r == self.ds_dc_of(),
    {
        self.ds_dc
    }

    /// The ticks played after the jump back.
    pub fn iter1_interval_set(&self) -> (r: &TickSet)
        ensures
            *r == self.iter1_tick_set(),
            runs_canonical(interval_runs(*r)),
    {
        proof { use_type_invariant(self); }
        &self.iter1_interval_set
    }
}

/// Collects the global repeat symbols bar by bar, then checks them and makes
/// the `GlobalRepeat`.
#[derive(Debug, PartialEq, Eq, Clone)]
pub struct GlobalRepeatBuilder {
    pub ds_dc: Option<DsDc>,
    pub fine: Option<u32>,
    pub segno: Option<u32>,
    pub coda: Option<Coda>,
    /// Length of the first bar (of an upbeat when shorter than a bar).
    pub first_bar_len: Option<u32>,
    /// The time signature at the start.
    pub top_rhythm: Rhythm,
    pub warnings: Vec<RenderRegionWarning>,
    pub prev_bar_tick: Option<u32>,
}

/// What a builder holds, with its warnings as a sequence.
pub struct BuilderView {
    pub ds_dc: Option<DsDc>,
    pub fine: Option<u32>,
    pub segno: Option<u32>,
    pub coda: Option<Coda>,
    pub first_bar_len: Option<u32>,
    pub top_rhythm: Rhythm,
    pub warnings: Seq<RenderRegionWarning>,
    pub prev_bar_tick: Option<u32>,
}

impl View for GlobalRepeatBuilder {
    type V = BuilderView;

    open spec fn view(&self) -> BuilderView {
        BuilderView {
            ds_dc: self.ds_dc,
            fine: self.fine,
            segno: self.segno,
            coda: self.coda,
            first_bar_len: self.first_bar_len,
            top_rhythm: self.top_rhythm,
            warnings: self.warnings@,
            prev_bar_tick: self.prev_bar_tick,
        }
    }
}

/// A builder result seen through the builder's view.
pub open spec fn view_result(r: Result<GlobalRepeatBuilder, RenderRegionError>) -> Result<BuilderView, RenderRegionError> {
    match r {
        Ok(b) => Ok(b@),
        Err(e) => Err(e),
    }
}

/// A second D.C. or D.S.
pub open spec fn duplicated_ds_dc(prev: DsDc, tick: u32) -> RenderRegionError {
    RenderRegionError::DuplicatedDsDc { tick: [ds_dc_tick(prev), tick] }
}

pub open spec fn adding_dc_spec(b: BuilderView, tick: u32, len: u32) -> Result<BuilderView, RenderRegionError> {
    match b.ds_dc {
        None => Ok(BuilderView { ds_dc: Some(DsDc::Dc { tick, len }), ..b }),
        Some(prev) => Err(duplicated_ds_dc(prev, tick)),
    }
}

pub open spec fn adding_ds_spec(b: BuilderView, tick: u32) -> Result<BuilderView, RenderRegionError> {
    match b.ds_dc {
        None => Ok(BuilderView { ds_dc: Some(DsDc::Ds { tick }), ..b }),
        Some(prev) => Err(duplicated_ds_dc(prev, tick)),
    }
}

pub open spec fn adding_fine_spec(b: BuilderView, tick: u32) -> Result<BuilderView, RenderRegionError> {
    match b.fine {
        Some(prev) => Err(RenderRegionError::DuplicatedFine { tick: [prev, tick] }),
        None => Ok(BuilderView { fine: Some(tick), ..b }),
    }
}

pub open spec fn adding_segno_spec(b: BuilderView, tick: u32) -> Result<BuilderView, RenderRegionError> {
    match b.segno {
        Some(prev) => Err(RenderRegionError::DuplicatedSegno { tick: [prev, tick] }),
        None => Ok(BuilderView { segno: Some(tick), ..b }),
    }
}

pub open spec fn adding_coda_spec(b: BuilderView, tick: u32) -> Result<BuilderView, RenderRegionError> {
    match b.coda {
        None => Ok(BuilderView { coda: Some(Coda::One(tick)), ..b }),
        Some(Coda::One(prev)) => Ok(BuilderView { coda: Some(Coda::Two { from_tick: prev, to_tick: tick }), ..b }),
        Some(Coda::Two { from_tick, to_tick }) => Err(RenderRegionError::MoreThanTwoCodas { tick: [from_tick, to_tick, tick] }),
    }
}

/// Applies `f` when `cond` holds and the previous step succeeded.
pub open spec fn step_if(
    r: Result<BuilderView, RenderRegionError>,
    cond: bool,
    f: spec_fn(BuilderView) -> Result<BuilderView, RenderRegionError>,
) -> Result<BuilderView, RenderRegionError> {
    match r {
        Ok(b) => if cond { f(b) } else { Ok(b) },
        Err(e) => Err(e),
    }
}

/// The builder after the first-bar bookkeeping of `on_bar`.
pub open spec fn first_bar_step(b: BuilderView, bar: Bar) -> BuilderView {
    if b.first_bar_len is None {
        if bar.start_tick == 0 {
            match bar.rhythm {
                Some(r) => BuilderView { top_rhythm: r, ..b },
                None => b,
            }
        } else {
            BuilderView { first_bar_len: Some(bar.start_tick), ..b }
        }
    } else {
        b
    }
}

/// The length of a D.C. bar: from the previous bar to it (0 for the first bar).
pub open spec fn dc_bar_len(b: BuilderView, tick: u32) -> u32 {
    match b.prev_bar_tick {
        Some(p) => (tick - p) as u32,
        None => 0,
    }
}

/// What `on_bar` makes of a builder and a bar.
pub open spec fn on_bar_spec(b: BuilderView, bar: Bar) -> Result<BuilderView, RenderRegionError> {
    let tick = bar.start_tick;
    let rs = bar.repeats@;
    let b1 = first_bar_step(b, bar);
    let r2 = if rs.contains(Repeat::Dc) { adding_dc_spec(b1, tick, dc_bar_len(b1, tick)) } else { Ok(b1) };
    let r3 = step_if(r2, rs.contains(Repeat::Ds), |x: BuilderView| adding_ds_spec(x, tick));
    let r4 = step_if(r3, rs.contains(Repeat::Fine), |x: BuilderView| adding_fine_spec(x, tick));
    let r5 = step_if(r4, rs.contains(Repeat::Segno), |x: BuilderView| adding_segno_spec(x, tick));
    let r6 = step_if(r5, rs.contains(Repeat::Coda), |x: BuilderView| adding_coda_spec(x, tick));
    match r6 {
        Ok(x) => Ok(BuilderView { prev_bar_tick: Some(tick), ..x }),
        Err(e) => Err(e),
    }
}

/// `on_bar` can measure a D.C. bar: it does not start before the previous bar.
pub open spec fn on_bar_ok(b: BuilderView, bar: Bar) -> bool {
    bar.repeats@.contains(Repeat::Dc) && b.prev_bar_tick is Some ==> b.prev_bar_tick->0 <= bar.start_tick
}

/// A coda that jumps past the fine.
pub open spec fn coda_error(from: u32, to: u32, fine: Option<u32>) -> Option<RenderRegionError> {
    match fine {
        Some(f) => if f < to { Some(RenderRegionError::CodaAfterFine { coda_from: from, coda_to: to, fine: f }) } else { None },
        None => None,
    }
}

/// Where a D.C. returns to: the segno when there is one. Else, in a tune that
/// opens with an upbeat (a first bar shorter than a full bar), a D.C. bar
/// longer than what completes the upbeat to a full bar (a full D.C. bar in
/// particular) returns to the end of the upbeat; in every other case the D.C.
/// returns to the start.
pub open spec fn dc_segno(b: BuilderView, len: u32, first_bar_len: u32) -> u32 {
    match b.segno {
        Some(s) => s,
        None => {
            let bar_len = rhythm_tick_len(b.top_rhythm);
            if first_bar_len < bar_len && bar_len - first_bar_len < len {
                first_bar_len
            } else {
                0
            }
        },
    }
}

/// The warnings `build` gives.
pub open spec fn build_warnings(b: BuilderView) -> Seq<RenderRegionWarning> {
    let w = b.warnings;
    match b.ds_dc {
        Some(DsDc::Dc { tick, len: _ }) => if b.first_bar_len is Some {
            let w1 = match b.segno {
                Some(s) => w.push(RenderRegionWarning::SegnoAndDcFound { segno_tick: s, dc_tick: tick }),
                None => w,
            };
            match b.coda {
                Some(Coda::One(c)) => w1.push(RenderRegionWarning::OrphanCodaFound { coda_tick: c }),
                _ => w1,
            }
        } else {
            w
        },
        _ => w,
    }
}

/// What `build` makes: an error, no global repeat, or one with its jump,
/// fine, segno and coda. A Fine without D.S. or D.C. is an error.
pub open spec fn build_spec(b: BuilderView) -> Result<Option<(DsDc, Option<u32>, u32, Option<(u32, u32)>)>, RenderRegionError> {
    match b.ds_dc {
        None => match b.fine {
            Some(f) => Err(RenderRegionError::FineWithoutDsDc { tick: f }),
            None => Ok(None),
        },
        Some(DsDc::Dc { tick, len }) => match b.first_bar_len {
            None => Ok(None),
            Some(fbl) => {
                let segno = dc_segno(b, len, fbl);
                match b.coda {
                    Some(Coda::Two { from_tick, to_tick }) => match coda_error(from_tick, to_tick, b.fine) {
                        Some(e) => Err(e),
                        None => Ok(Some((DsDc::Dc { tick, len }, b.fine, segno, Some((from_tick, to_tick))))),
                    },
                    _ => Ok(Some((DsDc::Dc { tick, len }, b.fine, segno, None))),
                }
            },
        },
        Some(DsDc::Ds { tick }) => match b.segno {
            None => Err(RenderRegionError::NoSegnoForDs { ds_tick: tick }),
            Some(segno) => match b.coda {
                None => Ok(Some((DsDc::Ds { tick }, b.fine, segno, None))),
                Some(Coda::One(c)) => Err(RenderRegionError::OnlyOneCoda { tick: c }),
                Some(Coda::Two { from_tick, to_tick }) => match coda_error(from_tick, to_tick, b.fine) {
                    Some(e) => Err(e),
                    None => Ok(Some((DsDc::Ds { tick }, b.fine, segno, Some((from_tick, to_tick))))),
                },
            },
        },
    }
}

/// `build` does not overflow in measuring the D.C. bars, and the ticks played
/// after the jump make an interval set.
pub open spec fn build_ok(b: BuilderView) -> bool {
    &&& (match (b.ds_dc, b.first_bar_len, b.segno) {
        (Some(DsDc::Dc { tick: _, len }), Some(fbl), None) => len + fbl <= u32::MAX,
        _ => true,
    })
    &&& (match build_spec(b) {
        Ok(Some((_, fine, segno, coda))) => iter1_args_ok(segno, fine, coda),
        _ => true,
    })
}

/// A global repeat made by `build` for what `build_spec` gives.
pub open spec fn global_repeat_matches(g: Option<GlobalRepeat>, want: Option<(DsDc, Option<u32>, u32, Option<(u32, u32)>)>) -> bool {
    match want {
        None => g is None,
        Some((ds_dc, fine, segno, coda)) => {
            &&& g is Some
            &&& g->Some_0.ds_dc_of() == ds_dc
            &&& g->Some_0.fine_of() == fine
            &&& g->Some_0.segno_of() == segno
            &&& g->Some_0.coda_of() == coda
            &&& g->Some_0.iter1_set() == iter1_ticks(segno, fine, coda)
        },
    }
}

/// `build`'s result agrees with `build_spec` and `build_warnings`.
pub open spec fn build_result(
    b: BuilderView,
    r: Result<(Option<GlobalRepeat>, Vec<RenderRegionWarning>), RenderRegionError>,
) -> bool {
    match build_spec(b) {
        Err(e) => r == Err::<(Option<GlobalRepeat>, Vec<RenderRegionWarning>), RenderRegionError>(e),
        Ok(want) => {
            &&& r is Ok
            &&& r->Ok_0.1@ == build_warnings(b)
            &&& global_repeat_matches(r->Ok_0.0, want)
        },
    }
}

/// A builder with nothing found yet.
pub open spec fn initial_builder(tune_rhythm: Rhythm) -> BuilderView {
    BuilderView {
        ds_dc: None,
        fine: None,
        segno: None,
        coda: None,
        first_bar_len: None,
        top_rhythm: tune_rhythm,
        warnings: Seq::empty(),
        prev_bar_tick: None,
    }
}

impl GlobalRepeatBuilder {
    /// A builder with nothing found yet, for a score in `tune_rhythm`.
    pub fn new(tune_rhythm: Rhythm) -> (r: GlobalRepeatBuilder)
        ensures
            r.ds_dc is None,
            r.fine is None,
            r.segno is None,
            r.coda is None,
            r.first_bar_len is None,
            r.top_rhythm == tune_rhythm,
            r.warnings@ == Seq::<RenderRegionWarning>::empty(),
            r.prev_bar_tick is None,
            r@ == initial_builder(tune_rhythm),
    {
        GlobalRepeatBuilder {
            ds_dc: None,
            fine: None,
            segno: None,
            coda: None,
            first_bar_len: None,
            top_rhythm: tune_rhythm,
            warnings: Vec::new(),
            prev_bar_tick: None,
        }
    }

    /// Records a D.C. at `dc_loc` whose bar is `dc_bar_len` ticks long; fails
    /// when a D.C. or D.S. was recorded before.
    pub fn adding_dc(self, dc_loc: u32, dc_bar_len: u32) -> (r: Result<GlobalRepeatBuilder, RenderRegionError>)
        ensures
            view_result(r) == adding_dc_spec(self@, dc_loc, dc_bar_len),
    {
        let mut b = self;
        match b.ds_dc {
            None => {
                b.ds_dc = Some(DsDc::Dc { tick: dc_loc, len: dc_bar_len });
                Ok(b)
            },
            Some(DsDc::Dc { tick: prev_tick, len: _ }) => Err(RenderRegionError::DuplicatedDsDc { tick: [prev_tick, dc_loc] }),
            Some(DsDc::Ds { tick: prev_tick }) => Err(RenderRegionError::DuplicatedDsDc { tick: [prev_tick, dc_loc] }),
        }
    }

    /// Records a D.S.; fails when a D.C. or D.S. was recorded before.
    pub fn adding_ds(self, tick: u32) -> (r: Result<GlobalRepeatBuilder, RenderRegionError>)
        ensures
            view_result(r) == adding_ds_spec(self@, tick),
    {
        let mut b = self;
        match b.ds_dc {
            None => {
                b.ds_dc = Some(DsDc::Ds { tick });
                Ok(b)
            },
            Some(DsDc::Dc { tick: prev_tick, len: _ }) => Err(RenderRegionError::DuplicatedDsDc { tick: [prev_tick, tick] }),
            Some(DsDc::Ds { tick: prev_tick }) => Err(RenderRegionError::DuplicatedDsDc { tick: [prev_tick, tick] }),
        }
    }

    /// Records a fine; fails when one was recorded before.
    pub fn adding_fine(self, tick: u32) -> (r: Result<GlobalRepeatBuilder, RenderRegionError>)
        ensures
            view_result(r) == adding_fine_spec(self@, tick),
    {
        let mut b = self;
        match b.fine {
            Some(prev_tick) => Err(RenderRegionError::DuplicatedFine { tick: [prev_tick, tick] }),
            None => {
                b.fine = Some(tick);
                Ok(b)
            },
        }
    }

    /// Records a segno; fails when one was recorded before.
    pub fn adding_segno(self, tick: u32) -> (r: Result<GlobalRepeatBuilder, RenderRegionError>)
        ensures
            view_result(r) == adding_segno_spec(self@, tick),
    {
        let mut b = self;
        match b.segno {
            Some(prev_tick) => Err(RenderRegionError::DuplicatedSegno { tick: [prev_tick, tick] }),
            None => {
                b.segno = Some(tick);
                Ok(b)
            },
        }
    }

    /// Records a coda sign; fails at the third.
    pub fn adding_coda(self, tick: u32) -> (r: Result<GlobalRepeatBuilder, RenderRegionError>)
        ensures
            view_result(r) == adding_coda_spec(self@, tick),
    {
        let mut b = self;
        match b.coda {
            None => {
                b.coda = Some(Coda::One(tick));
                Ok(b)
            },
            Some(Coda::One(prev_tick)) => {
                b.coda = Some(Coda::Two { from_tick: prev_tick, to_tick: tick });
                Ok(b)
            },
            Some(Coda::Two { from_tick, to_tick }) => Err(RenderRegionError::MoreThanTwoCodas { tick: [from_tick, to_tick, tick] }),
        }
    }

    /// Records the length of the first bar.
    pub fn adding_first_bar_len(self, first_bar_len: u32) -> (r: Result<GlobalRepeatBuilder, RenderRegionError>)
        ensures
            view_result(r) == Ok::<BuilderView, RenderRegionError>(BuilderView { first_bar_len: Some(first_bar_len), ..self@ }),
    {
        let mut b = self;
        b.first_bar_len = Some(first_bar_len);
        Ok(b)
    }

    /// Takes in the symbols of the next bar.
    pub fn on_bar(self, bar: &Bar) -> (r: Result<GlobalRepeatBuilder, RenderRegionError>)
        requires
            on_bar_ok(self@, *bar),
        ensures
            view_result(r) == on_bar_spec(self@, *bar),
    {
        let repeats = bar.repeats;
        let tick = bar.base_start_tick();
        let mut b = self;
        if b.first_bar_len.is_none() {
            if bar.base_start_tick() == 0 {
                if let Some(rhythm) = bar.rhythm {
                    b.top_rhythm = rhythm;
                }
            } else {
                b.first_bar_len = Some(bar.base_start_tick());
            }
        }
        assert(b@ == first_bar_step(self@, *bar));
        if repeats.contains(Repeat::Dc) {
            match b.prev_bar_tick {
                Some(prev_bar_tick) => {
                    let dc_bar_len = tick - prev_bar_tick;
                    b = match b.adding_dc(tick, dc_bar_len) {
                        Ok(x) => x,
                        Err(e) => return Err(e),
                    };
                },
                None => {
                    b = match b.adding_dc(tick, 0) {
                        Ok(x) => x,
                        Err(e) => return Err(e),
                    };
                },
            }
        }
        if repeats.contains(Repeat::Ds) {
            b = match b.adding_ds(tick) {
                Ok(x) => x,
                Err(e) => return Err(e),
            };
        }
        if repeats.contains(Repeat::Fine) {
            b = match b.adding_fine(tick) {
                Ok(x) => x,
                Err(e) => return Err(e),
            };
        }
        if repeats.contains(Repeat::Segno) {
            b = match b.adding_segno(tick) {
                Ok(x) => x,
                Err(e) => return Err(e),
            };
        }
        if repeats.contains(Repeat::Coda) {
            b = match b.adding_coda(tick) {
                Ok(x) => x,
                Err(e) => return Err(e),
            };
        }
        b.prev_bar_tick = Some(tick);
        Ok(b)
    }

    /// Fails when the second coda sign stands after the fine.
    fn check_coda_pos(coda_from: u32, coda_to: u32, fine: Option<u32>) -> (r: Result<(), RenderRegionError>)
        ensures
            match coda_error(coda_from, coda_to, fine) {
                Some(e) => r == Err::<(), RenderRegionError>(e),
                None => r is Ok,
            },
    {
        if let Some(fine) = fine {
            if fine < coda_to {
                Err(RenderRegionError::CodaAfterFine { coda_from, coda_to, fine })
            } else {
                Ok(())
            }
        } else {
            Ok(())
        }
    }

    /// The ticks played after the jump back, as an interval set.
    fn to_interval_set(start_tick: u32, fine: Option<u32>, coda: Option<[u32; 2]>) -> (r: TickSet)
        requires
            iter1_args_ok(start_tick, fine, coda_pair(coda)),
        ensures
            runs_canonical(interval_runs(r)),
            tick_set(r) == iter1_ticks(start_tick, fine, coda_pair(coda)),
    {
        let end_tick: u32 = match fine {
            Some(f) => f,
            None => u32::MAX,
        };
        let pairs: Vec<(u32, u32)> = match coda {
            Some(c) => {
                let coda_from = c[0];
                let coda_to = c[1];
                vec![(start_tick, coda_from - 1), (coda_to, end_tick - 1)]
            },
            None => {
                if end_tick <= start_tick {
                    vec![]
                } else {
                    vec![(start_tick, end_tick - 1)]
                }
            },
        };
        let r = tick_set_from_pairs(pairs);
        proof {
            let want = iter1_ticks(start_tick, fine, coda_pair(coda));
            assert forall|t: u32| runs_set(pairs@).contains(t) <==> want.contains(t) by {
                if coda is Some {
                    if t <= coda->0@[0] - 1 && start_tick <= t {
                        assert(pairs@[0].0 <= t <= pairs@[0].1);
                    }
                    if coda->0@[1] <= t && t <= end_tick - 1 {
                        assert(pairs@[1].0 <= t <= pairs@[1].1);
                    }
                } else if start_tick < end_tick {
                    if start_tick <= t <= end_tick - 1 {
                        assert(pairs@[0].0 <= t <= pairs@[0].1);
                    }
                }
            }
            assert(runs_set(pairs@) =~= want);
        }
        r
    }

    /// Checks the symbols found and makes the global repeat, if the score
    /// has one, with the warnings.
    pub fn build(self) -> (r: Result<(Option<GlobalRepeat>, Vec<RenderRegionWarning>), RenderRegionError>)
        requires
            build_ok(self@),
        ensures
            build_result(self@, r),
    {
        let mut warnings = self.warnings;
        match self.ds_dc {
            None => match self.fine {
                Some(tick) => Err(RenderRegionError::FineWithoutDsDc { tick }),
                None => Ok((None, warnings)),
            },
            Some(ds_dc) => {
                match ds_dc {
                    DsDc::Dc { tick, len } => {
                        if let Some(first_bar_len) = self.first_bar_len {
                            let segno = if let Some(segno_tick) = self.segno {
                                warnings.push(RenderRegionWarning::SegnoAndDcFound { segno_tick, dc_tick: tick });
                                segno_tick
                            } else {
                                let rhythm_tick_len = self.top_rhythm.tick_len();
                                if first_bar_len < rhythm_tick_len && rhythm_tick_len - first_bar_len < len {
                                    first_bar_len
                                } else {
                                    0
                                }
                            };
                            let coda: Option<[u32; 2]> = match self.coda {
                                None => None,
                                Some(Coda::One(orphan_coda)) => {
                                    warnings.push(RenderRegionWarning::OrphanCodaFound { coda_tick: orphan_coda });
                                    None
                                },
                                Some(Coda::Two { from_tick, to_tick }) => {
                                    match Self::check_coda_pos(from_tick, to_tick, self.fine) {
                                        Err(e) => return Err(e),
                                        Ok(()) => {},
                                    }
                                    Some([from_tick, to_tick])
                                },
                            };
                            let iter1_interval_set = Self::to_interval_set(segno, self.fine, coda);
                            Ok((Some(GlobalRepeat { ds_dc, fine: self.fine, segno, coda, iter1_interval_set }), warnings))
                        } else {
                            Ok((None, warnings))
                        }
                    },
                    DsDc::Ds { tick } => {
                        let segno_tick = match self.segno {
                            Some(segno_tick) => segno_tick,
                            None => return Err(RenderRegionError::NoSegnoForDs { ds_tick: tick }),
                        };
                        let coda: Option<[u32; 2]> = match self.coda {
                            None => None,
                            Some(Coda::One(tick_tick)) => return Err(RenderRegionError::OnlyOneCoda { tick: tick_tick }),
                            Some(Coda::Two { from_tick, to_tick }) => {
                                match Self::check_coda_pos(from_tick, to_tick, self.fine) {
                                    Err(e) => return Err(e),
                                    Ok(()) => {},
                                }
                                Some([from_tick, to_tick])
                            },
                        };
                        let iter1_interval_set = Self::to_interval_set(segno_tick, self.fine, coda);
                        Ok((Some(GlobalRepeat { ds_dc, segno: segno_tick, fine: self.fine, coda, iter1_interval_set }), warnings))
                    },
                }
            },
        }
    }
}

} // verus!
