use vstd::prelude::*;
use vstd::multiset::Multiset;
use std::rc::Rc;
use klavier_helper::store::Store;
use klavier_helper::bag_store::BagStore;
use crate::bar::{Bar, RepeatSet};
use crate::ctrl_chg::CtrlChg;
use crate::grid::Grid;
use crate::key::Key;
use crate::location::Location;
use crate::models::{Models, ModelChanges, unwrapped};
use crate::tuple::{share_note, tuplize_ok, tuplet_of};
use crate::note::{Note, note_start_tick};
use crate::have_start_tick::HaveStartTick;
use crate::rhythm::{Rhythm, rhythm_tick_len, lemma_tick_len_nonneg};
use crate::can_apply::CanApply;
use crate::duration::tick_length_of;
use crate::tempo::{Tempo, TempoValue};
use crate::velocity::{self, Velocity};
use crate::repo::{change_pairs, bag_change_pairs, note_event_log, bar_event_log, tempo_event_log, ctrl_event_log, log_len, log_cleared, fired, StoreLogEvent, BagLogEvent, has_record, bag_listing, bag_from, first_tick, keys_increasing, entries_map, value_at, bulk_put, bulk_displaced, change_taken, bag_change_taken, find_result,
    bar_store_bulk_add, tempo_store_bulk_add, ctrl_store_bulk_add, bar_store_change, tempo_store_change, ctrl_store_change,
    unshared_changes, note_bag_change, note_bag_clear_events, bar_store_clear_events, tempo_store_clear_events, ctrl_store_clear_events, bag_add, bag_remove, first_index, bag_bulk_add, bag_bulk_remove, unshared, note_bag_bulk_add, note_bag_bulk_remove,
    bar_store_remove, tempo_store_add, tempo_store_remove, ctrl_store_add, ctrl_store_remove, note_bag_add, note_bag_remove, bar_entries, tempo_entries, ctrl_entries, note_bag,
    bar_store_new, bar_store_slice, bar_store_find, bar_store_add, tempo_store_new, tempo_store_slice, tempo_store_find,
    ctrl_store_new, ctrl_store_slice, ctrl_store_find, note_bag_new, note_bag_is_empty, note_bag_last_tick, note_bag_from};

verus! {

/// A location beyond the last tick.
#[derive(Clone, Copy, Debug, PartialEq, Eq, Structural)]
pub enum LocationError {
    Overflow,
}

impl LocationError {
    /// The message for this error.
    pub fn message(&self) -> (r: &'static str)
        ensures
            r@ == "Location overflow"@,
    {
        match self {
            LocationError::Overflow => "Location overflow",
        }
    }
}

/// How a change of the models came about.
#[derive(PartialEq, Debug, Structural)]
pub enum ChangeRepoType {
    MoveSelected,
    AdHoc,
}

/// What goes with a change of the models: whether the changed items should
/// be selected (`Some(true)`), unselected (`Some(false)`) or left as they are
/// (`None`), and whether they were dragged.
#[derive(Clone, Copy, PartialEq, Debug, Default, Structural)]
pub struct ModelChangeMetadata {
    pub need_select: Option<bool>,
    pub dragged: bool,
}

impl ModelChangeMetadata {
    pub fn new() -> (r: ModelChangeMetadata)
        ensures
            r == (ModelChangeMetadata { need_select: None, dragged: false }),
    {
        ModelChangeMetadata { need_select: None, dragged: false }
    }

    /// This metadata asking for the items to be selected or unselected.
    pub fn with_need_select(self, need_select: bool) -> (r: ModelChangeMetadata)
        ensures
            r == (ModelChangeMetadata { need_select: Some(need_select), dragged: self.dragged }),
    {
        ModelChangeMetadata { need_select: Some(need_select), dragged: self.dragged }
    }
}

/// A command that would change nothing.
#[derive(Debug, PartialEq, Eq, Clone, Copy, Structural)]
pub enum ProjectCmdErr {
    NoOp,
}

impl ProjectCmdErr {
    /// The message for this error.
    pub fn message(&self) -> (r: &'static str)
        ensures
            r@ == "No Operation"@,
    {
        match self {
            ProjectCmdErr::NoOp => "No Operation",
        }
    }
}

/// How many entries have a key at or before `tick` (with increasing keys,
/// the entries before that count).
pub open spec fn count_upto<T>(e: Seq<(u32, T)>, tick: u32) -> nat
    decreases e.len(),
{
    if e.len() == 0 {
        0
    } else {
        count_upto(e.drop_last(), tick) + if e.last().0 <= tick { 1nat } else { 0nat }
    }
}

/// The value in force at `tick`: that of the last entry at or before it.
pub open spec fn in_force<T>(e: Seq<(u32, T)>, tick: u32) -> Option<T> {
    let p = count_upto(e, tick);
    if p > 0 { Some(e[p - 1].1) } else { None }
}

/// With increasing keys, the entries at or before `tick` are the first ones.
pub proof fn lemma_count_upto<T>(e: Seq<(u32, T)>, tick: u32)
    requires
        keys_increasing(e),
    ensures
        count_upto(e, tick) <= e.len(),
        forall|j: int| 0 <= j < count_upto(e, tick) ==> (#[trigger] e[j]).0 <= tick,
        forall|j: int| count_upto(e, tick) <= j < e.len() ==> (#[trigger] e[j]).0 > tick,
    decreases e.len(),
{
    if e.len() > 0 {
        let d = e.drop_last();
        assert(keys_increasing(d)) by {
            assert forall|i: int, j: int| 0 <= i < j < d.len() implies (#[trigger] d[i]).0 < (#[trigger] d[j]).0 by {
                assert(d[i] == e[i] && d[j] == e[j]);
            }
        }
        lemma_count_upto(d, tick);
        let c = count_upto(d, tick);
        if e.last().0 <= tick {
            assert forall|j: int| 0 <= j < c + 1 implies (#[trigger] e[j]).0 <= tick by {
                if j < c {
                    assert(d[j] == e[j]);
                } else if j < d.len() {
                    assert(d[j] == e[j]);
                    assert(e[j].0 < e[e.len() - 1].0);
                }
            }
            if c < d.len() {
                assert(d[c as int] == e[c as int]);
                assert(e[c as int].0 < e[e.len() - 1].0);
                assert(false);
            }
        } else {
            assert forall|j: int| c <= j < e.len() implies (#[trigger] e[j]).0 > tick by {
                if j < d.len() {
                    assert(d[j] == e[j]);
                }
            }
            assert forall|j: int| 0 <= j < c implies (#[trigger] e[j]).0 <= tick by {
                assert(d[j] == e[j]);
            }
        }
    }
}

/// Where a binary search puts a tick: after the entries at or before it.
proof fn lemma_find_count<T>(e: Seq<(u32, T)>, tick: u32, r: Result<usize, usize>)
    requires
        keys_increasing(e),
        find_result(e, tick, r),
    ensures
        match r {
            Ok(i) => count_upto(e, tick) == i + 1,
            Err(i) => count_upto(e, tick) == i,
        },
{
    lemma_count_upto(e, tick);
    let c = count_upto(e, tick) as int;
    match r {
        Ok(i) => {
            if c < i + 1 {
                assert(e[i as int].0 > tick);
            }
            if c > i + 1 {
                assert(e[i as int + 1].0 <= tick);
                assert(e[i as int].0 < e[i as int + 1].0);
            }
        },
        Err(i) => {
            if c < i {
                assert(e[c].0 > tick);
                assert(e[c].0 < tick);
            }
            if c > i {
                assert(e[i as int].0 <= tick);
                assert(e[i as int].0 > tick);
            }
        },
    }
}

/// The tempo at the start, and where no tempo change comes before.
pub const DEFAULT_TEMPO_VALUE: u16 = 120;

/// The tempo in force at `tick`: that of the last change at or before it,
/// or 120.
pub fn tempo_at(tick: u32, store: &Store<u32, Tempo, ModelChangeMetadata>) -> (r: TempoValue)
    requires
        keys_increasing(tempo_entries(*store)),
    ensures
        match in_force(tempo_entries(*store), tick) {
            Some(t) => r == t.value,
            None => r@ == DEFAULT_TEMPO_VALUE,
        },
{
    let entries = tempo_store_slice(store);
    if entries.len() == 0 {
        TempoValue::new(DEFAULT_TEMPO_VALUE)
    } else {
        let found = tempo_store_find(store, tick);
        proof { lemma_find_count(tempo_entries(*store), tick, found); }
        match found {
            Ok(idx) => entries[idx].1.value,
            Err(idx) => {
                if idx == 0 {
                    TempoValue::new(DEFAULT_TEMPO_VALUE)
                } else {
                    entries[idx - 1].1.value
                }
            },
        }
    }
}

/// The pedal value in force at `tick`: that of the last change at or before
/// it, or the lowest velocity.
pub fn ctrl_chg_at(tick: u32, store: &Store<u32, CtrlChg, ModelChangeMetadata>) -> (r: Velocity)
    requires
        keys_increasing(ctrl_entries(*store)),
    ensures
        match in_force(ctrl_entries(*store), tick) {
            Some(c) => r == c.velocity,
            None => r@ == 0,
        },
{
    let entries = ctrl_store_slice(store);
    if entries.len() == 0 {
        velocity::MIN()
    } else {
        let found = ctrl_store_find(store, tick);
        proof { lemma_find_count(ctrl_entries(*store), tick, found); }
        match found {
            Ok(idx) => entries[idx].1.velocity,
            Err(idx) => {
                if idx == 0 {
                    velocity::MIN()
                } else {
                    entries[idx - 1].1.velocity
                }
            },
        }
    }
}

/// The items of a project: its time signature, key and grid at the start,
/// and its notes (by tick), bars, tempo changes and pedal changes (each
/// store keyed by tick).
pub struct ProjectImpl {
    rhythm: Rhythm,
    key: Key,
    grid: Grid,
    note_repo: BagStore<u32, Rc<Note>, ModelChangeMetadata>,
    bar_repo: Store<u32, Bar, ModelChangeMetadata>,
    tempo_repo: Store<u32, Tempo, ModelChangeMetadata>,
    dumper_repo: Store<u32, CtrlChg, ModelChangeMetadata>,
    soft_repo: Store<u32, CtrlChg, ModelChangeMetadata>,
}

/// The time signature in force after bars: that of the last bar that sets one.
pub open spec fn last_rhythm(bars: Seq<(u32, Bar)>) -> Option<Rhythm>
    decreases bars.len(),
{
    if bars.len() == 0 {
        None
    } else if bars.last().1.rhythm is Some {
        bars.last().1.rhythm
    } else {
        last_rhythm(bars.drop_last())
    }
}

/// The key in force after bars: that of the last bar that sets one.
pub open spec fn last_key(bars: Seq<(u32, Bar)>) -> Option<Key>
    decreases bars.len(),
{
    if bars.len() == 0 {
        None
    } else if bars.last().1.key is Some {
        bars.last().1.key
    } else {
        last_key(bars.drop_last())
    }
}

impl ProjectImpl {
    pub closed spec fn rhythm_spec(&self) -> Rhythm {
        self.rhythm
    }

    pub closed spec fn key_spec(&self) -> Key {
        self.key
    }

    pub closed spec fn grid_spec(&self) -> Grid {
        self.grid
    }

    /// The bars, by tick.
    pub closed spec fn bars(&self) -> Seq<(u32, Bar)> {
        bar_entries(self.bar_repo)
    }

    /// The tempo changes, by tick.
    pub closed spec fn tempos(&self) -> Seq<(u32, Tempo)> {
        tempo_entries(self.tempo_repo)
    }

    /// The dumper pedal changes, by tick.
    pub closed spec fn dumpers(&self) -> Seq<(u32, CtrlChg)> {
        ctrl_entries(self.dumper_repo)
    }

    /// The soft pedal changes, by tick.
    pub closed spec fn softs(&self) -> Seq<(u32, CtrlChg)> {
        ctrl_entries(self.soft_repo)
    }

    /// The notes under each tick.
    pub closed spec fn notes(&self) -> Map<u32, Seq<Note>> {
        note_bag(self.note_repo)
    }

    /// The events the store of notes holds logged.
    pub closed spec fn note_log(&self) -> Option<Seq<BagLogEvent>> {
        note_event_log(self.note_repo)
    }

    /// The events the store of bars holds logged.
    pub closed spec fn bar_log(&self) -> Option<Seq<StoreLogEvent<Bar>>> {
        bar_event_log(self.bar_repo)
    }

    /// The events the store of tempo changes holds logged.
    pub closed spec fn tempo_log(&self) -> Option<Seq<StoreLogEvent<Tempo>>> {
        tempo_event_log(self.tempo_repo)
    }

    /// The events the store of dumper pedal changes holds logged.
    pub closed spec fn dumper_log(&self) -> Option<Seq<StoreLogEvent<CtrlChg>>> {
        ctrl_event_log(self.dumper_repo)
    }

    /// The events the store of soft pedal changes holds logged.
    pub closed spec fn soft_log(&self) -> Option<Seq<StoreLogEvent<CtrlChg>>> {
        ctrl_event_log(self.soft_repo)
    }

    /// How many events the stores hold logged, all together.
    pub closed spec fn events_logged(&self) -> nat {
        log_len(note_event_log(self.note_repo)) + log_len(bar_event_log(self.bar_repo)) + log_len(tempo_event_log(self.tempo_repo))
            + log_len(ctrl_event_log(self.dumper_repo)) + log_len(ctrl_event_log(self.soft_repo))
    }

    /// The stores keep their keys in increasing order, and each item is kept
    /// under its start tick (see `notes_wf` for the notes).
    pub open spec fn wf(&self) -> bool {
        &&& notes_wf(self.notes())
        &&& keys_increasing(self.bars())
        &&& keys_increasing(self.tempos())
        &&& keys_increasing(self.dumpers())
        &&& keys_increasing(self.softs())
        &&& keyed(self.bars())
        &&& keyed(self.tempos())
        &&& keyed(self.dumpers())
        &&& keyed(self.softs())
    }

    /// The time signature in force at `tick`.
    pub open spec fn rhythm_at_spec(&self, tick: u32) -> Rhythm {
        match last_rhythm(self.bars().take(count_upto(self.bars(), tick) as int)) {
            Some(r) => r,
            None => self.rhythm_spec(),
        }
    }

    /// The key in force at `tick`.
    pub open spec fn key_at_spec(&self, tick: u32) -> Key {
        match last_key(self.bars().take(count_upto(self.bars(), tick) as int)) {
            Some(k) => k,
            None => self.key_spec(),
        }
    }

    pub fn rhythm(&self) -> (r: Rhythm)
        ensures
            r == self.rhythm_spec(),
    {
        self.rhythm
    }

    pub fn key(&self) -> (r: Key)
        ensures
            r == self.key_spec(),
    {
        self.key
    }

    pub fn grid(&self) -> (r: Grid)
        ensures
            r == self.grid_spec(),
    {
        self.grid
    }

    pub fn note_repo(&self) -> (r: &BagStore<u32, Rc<Note>, ModelChangeMetadata>)
        ensures
            note_bag(*r) == self.notes(),
    {
        &self.note_repo
    }

    pub fn bar_repo(&self) -> (r: &Store<u32, Bar, ModelChangeMetadata>)
        ensures
            bar_entries(*r) == self.bars(),
    {
        &self.bar_repo
    }

    pub fn tempo_repo(&self) -> (r: &Store<u32, Tempo, ModelChangeMetadata>)
        ensures
            tempo_entries(*r) == self.tempos(),
    {
        &self.tempo_repo
    }

    pub fn dumper_repo(&self) -> (r: &Store<u32, CtrlChg, ModelChangeMetadata>)
        ensures
            ctrl_entries(*r) == self.dumpers(),
    {
        &self.dumper_repo
    }

    pub fn soft_repo(&self) -> (r: &Store<u32, CtrlChg, ModelChangeMetadata>)
        ensures
            ctrl_entries(*r) == self.softs(),
    {
        &self.soft_repo
    }

    /// The number of the bar (counted from 0) that starts where `bar` starts,
    /// if there is one.
    pub fn bar_no(&self, bar: &Bar) -> (r: Option<usize>)
        requires
            self.wf(),
        ensures
            match r {
                Some(i) => i < self.bars().len() && self.bars()[i as int].0 == bar.start_tick,
                None => forall|i: int| 0 <= i < self.bars().len() ==> (#[trigger] self.bars()[i]).0 != bar.start_tick,
            },
    {
        match bar_store_find(&self.bar_repo, bar.start_tick) {
            Ok(i) => Some(i),
            Err(_) => None,
        }
    }

    /// The tempo in force at `tick` (see `tempo_at`).
    pub fn tempo_at(&self, tick: u32) -> (r: TempoValue)
        requires
            self.wf(),
        ensures
            match in_force(self.tempos(), tick) {
                Some(t) => r == t.value,
                None => r@ == DEFAULT_TEMPO_VALUE,
            },
    {
        tempo_at(tick, &self.tempo_repo)
    }

    /// The dumper pedal value in force at `tick` (see `ctrl_chg_at`).
    pub fn dumper_at(&self, tick: u32) -> (r: Velocity)
        requires
            self.wf(),
        ensures
            match in_force(self.dumpers(), tick) {
                Some(c) => r == c.velocity,
                None => r@ == 0,
            },
    {
        ctrl_chg_at(tick, &self.dumper_repo)
    }

    /// The soft pedal value in force at `tick` (see `ctrl_chg_at`).
    pub fn soft_at(&self, tick: u32) -> (r: Velocity)
        requires
            self.wf(),
        ensures
            match in_force(self.softs(), tick) {
                Some(c) => r == c.velocity,
                None => r@ == 0,
            },
    {
        ctrl_chg_at(tick, &self.soft_repo)
    }

    /// The time signature in force at `tick`: that of the last bar at or
    /// before it that sets one, else the project's.
    pub fn rhythm_at(&self, tick: u32) -> (r: Rhythm)
        requires
            self.wf(),
        ensures
            r == self.rhythm_at_spec(tick),
    {
        let bars = bar_store_slice(&self.bar_repo);
        let found = bar_store_find(&self.bar_repo, tick);
        proof {
            lemma_find_count(self.bars(), tick, found);
            lemma_count_upto(self.bars(), tick);
        }
        let idx = match found {
            Ok(t) => t,
            Err(t) => {
                if t == 0 {
                    proof { assert(self.bars().take(0) =~= Seq::<(u32, Bar)>::empty()); }
                    return self.rhythm;
                } else {
                    t - 1
                }
            },
        };
        let ghost p = count_upto(self.bars(), tick) as int;
        assert(idx < bars.len());
        let mut i: usize = idx + 1;
        while i > 0
            invariant
                0 <= i <= idx + 1,
                idx + 1 == p,
                p == count_upto(self.bars(), tick),
                p <= bars@.len(),
                bars@ == self.bars(),
                last_rhythm(bars@.take(p)) == last_rhythm(bars@.take(i as int)),
            decreases i,
        {
            let bar = bars[i - 1].1;
            proof {
                assert(bars@.take(i as int).drop_last() =~= bars@.take(i - 1));
                assert(bars@.take(i as int).last() == bars@[i - 1]);
            }
            if let Some(rhythm) = bar.rhythm {
                proof {
                    assert(bars@.take(i as int).last().1.rhythm == Some(rhythm));
                    assert(last_rhythm(bars@.take(i as int)) == Some(rhythm));
                }
                return rhythm;
            }
            i = i - 1;
        }
        proof { assert(bars@.take(0) =~= Seq::<(u32, Bar)>::empty()); }
        self.rhythm
    }

    /// The key in force at `tick`: that of the last bar at or before it that
    /// sets one, else the project's.
    pub fn key_at(&self, tick: u32) -> (r: Key)
        requires
            self.wf(),
        ensures
            r == self.key_at_spec(tick),
    {
        let bars = bar_store_slice(&self.bar_repo);
        let found = bar_store_find(&self.bar_repo, tick);
        proof {
            lemma_find_count(self.bars(), tick, found);
            lemma_count_upto(self.bars(), tick);
        }
        let idx = match found {
            Ok(t) => t,
            Err(t) => {
                if t == 0 {
                    proof { assert(self.bars().take(0) =~= Seq::<(u32, Bar)>::empty()); }
                    return self.key;
                } else {
                    t - 1
                }
            },
        };
        let ghost p = count_upto(self.bars(), tick) as int;
        assert(idx < bars.len());
        let mut i: usize = idx + 1;
        while i > 0
            invariant
                0 <= i <= idx + 1,
                idx + 1 == p,
                p == count_upto(self.bars(), tick),
                p <= bars@.len(),
                bars@ == self.bars(),
                last_key(bars@.take(p)) == last_key(bars@.take(i as int)),
            decreases i,
        {
            let bar = bars[i - 1].1;
            proof {
                assert(bars@.take(i as int).drop_last() =~= bars@.take(i - 1));
                assert(bars@.take(i as int).last() == bars@[i - 1]);
            }
            if let Some(key) = bar.key {
                proof {
                    assert(bars@.take(i as int).last().1.key == Some(key));
                    assert(last_key(bars@.take(i as int)) == Some(key));
                }
                return key;
            }
            i = i - 1;
        }
        proof { assert(bars@.take(0) =~= Seq::<(u32, Bar)>::empty()); }
        self.key
    }
}

/// The tick of a location (bar number counted from 1, bar 0 being before
/// the first bar, and offset): from the start of the bar; past the last
/// bar, bars of the time signature in force there follow (bars of the
/// project's time signature when there is no bar).
pub open spec fn location_tick_spec(
    bars: Seq<(u32, Bar)>,
    rhythm: Rhythm,
    last_rhythm_len: int,
    bar_no: int,
    offset: int,
) -> Result<u32, LocationError> {
    if bar_no == 0 {
        if offset > u32::MAX { Err(LocationError::Overflow) } else { Ok(offset as u32) }
    } else if bar_no > u32::MAX {
        Err(LocationError::Overflow)
    } else if bar_no <= bars.len() {
        let sum = bars[bar_no - 1].0 + offset;
        if sum > u32::MAX { Err(LocationError::Overflow) } else { Ok(sum as u32) }
    } else {
        let tick = beyond_bars_tick(bars, rhythm, last_rhythm_len, bar_no, offset);
        if tick > u32::MAX { Err(LocationError::Overflow) } else { Ok(tick as u32) }
    }
}

/// The tick of a location past the last bar.
pub open spec fn beyond_bars_tick(bars: Seq<(u32, Bar)>, rhythm: Rhythm, last_rhythm_len: int, bar_no: int, offset: int) -> int {
    if bars.len() == 0 {
        bar_no * rhythm_tick_len(rhythm) + offset
    } else {
        (bar_no - bars.len()) * last_rhythm_len + offset + bars.last().1.start_tick
    }
}

/// The sums of `location_to_tick` stay within `usize`.
pub open spec fn location_sums_fit(bars: Seq<(u32, Bar)>, rhythm: Rhythm, last_rhythm_len: int, bar_no: int, offset: int) -> bool {
    0 < bar_no <= u32::MAX ==> if bar_no <= bars.len() {
        bars[bar_no - 1].0 + offset <= usize::MAX
    } else {
        beyond_bars_tick(bars, rhythm, last_rhythm_len, bar_no, offset) <= usize::MAX
    }
}

impl ProjectImpl {
    /// The length of a bar of the time signature in force at the last bar.
    pub open spec fn last_rhythm_len(&self) -> int {
        if self.bars().len() == 0 { 0 } else { rhythm_tick_len(self.rhythm_at_spec(self.bars().last().1.start_tick)) }
    }

    /// The last bar, with its number counted from 0.
    pub fn last_bar(&self) -> (r: Option<(usize, Bar)>)
        ensures
            self.bars().len() == 0 ==> r is None,
            self.bars().len() > 0 ==> r == Some(((self.bars().len() - 1) as usize, self.bars().last().1)),
    {
        let bars = bar_store_slice(&self.bar_repo);
        if bars.len() == 0 {
            None
        } else {
            Some((bars.len() - 1, bars[bars.len() - 1].1))
        }
    }

    /// The tick of a location (see `location_tick_spec`); fails when it is
    /// beyond the last tick.
    pub fn location_to_tick(&self, loc: Location) -> (r: Result<u32, LocationError>)
        requires
            self.wf(),
            location_sums_fit(self.bars(), self.rhythm_spec(), self.last_rhythm_len(), loc.bar_no_spec(), loc.offset_spec()),
        ensures
            r == location_tick_spec(self.bars(), self.rhythm_spec(), self.last_rhythm_len(), loc.bar_no_spec(), loc.offset_spec()),
    {
        let bars = bar_store_slice(&self.bar_repo);
        let bar_no = loc.bar_no();
        let offset = loc.offset();
        if bar_no == 0 {
            if (u32::MAX as usize) < offset {
                Err(LocationError::Overflow)
            } else {
                Ok(offset as u32)
            }
        } else if (u32::MAX as usize) < bar_no {
            Err(LocationError::Overflow)
        } else {
            if bar_no <= bars.len() {
                let (tick, _) = bars[bar_no - 1];
                let sum = (tick as usize) + offset;
                if (u32::MAX as usize) < sum {
                    Err(LocationError::Overflow)
                } else {
                    Ok(sum as u32)
                }
            } else {
                let tick: usize = match self.last_bar() {
                    None => {
                        let len = self.rhythm.tick_len() as usize;
                        proof {
                            let t = bar_no as int * len as int;
                            assert(0 <= t <= t + offset) by (nonlinear_arith)
                                requires t == bar_no as int * len as int;
                        }
                        bar_no * len + offset
                    },
                    Some((last_bar_no, last_bar)) => {
                        let last_tick = last_bar.start_tick;
                        let tick_len = self.rhythm_at(last_tick).tick_len() as usize;
                        let n = bar_no - last_bar_no - 1;
                        proof {
                            let t = n as int * tick_len as int;
                            assert(0 <= t) by (nonlinear_arith)
                                requires t == n as int * tick_len as int;
                        }
                        n * tick_len + offset + last_bar.start_tick as usize
                    },
                };
                if (u32::MAX as usize) < tick {
                    Err(LocationError::Overflow)
                } else {
                    Ok(tick as u32)
                }
            }
        }
    }

    /// The location of a tick: the number of the last bar at or before it
    /// (0 before the first bar) and the ticks from that bar's start.
    pub fn tick_to_location(&self, tick: u32) -> (r: Location)
        requires
            self.wf(),
        ensures
            (r.bar_no_spec(), r.offset_spec()) == tick_location_spec(self.bars(), tick),
    {
        let bars = bar_store_slice(&self.bar_repo);
        proof { lemma_count_upto(self.bars(), tick); }
        if bars.len() == 0 {
            Location::new(0, tick as usize)
        } else {
            let found = bar_store_find(&self.bar_repo, tick);
            proof { lemma_find_count(self.bars(), tick, found); }
            match found {
                Ok(idx) => Location::new(idx + 1, 0),
                Err(idx) => {
                    if idx == 0 {
                        Location::new(0, tick as usize)
                    } else {
                        let (_, bar) = bars[idx - 1];
                        Location::new(idx, (tick - bar.start_tick) as usize)
                    }
                },
            }
        }
    }
}

/// The location of a tick (bar number and offset): the number of the last
/// bar at or before it (0 before the first bar) and the ticks from that
/// bar's start.
pub open spec fn tick_location_spec(bars: Seq<(u32, Bar)>, tick: u32) -> (int, int) {
    let p = count_upto(bars, tick);
    if p == 0 {
        (0, tick as int)
    } else {
        (p as int, tick - bars[p - 1].1.start_tick)
    }
}

/// Reading back the tick of the location of a tick gives the tick again, as
/// long as the bar number fits in 32 bits.
pub proof fn law_tick_location_reads_back(p: &ProjectImpl, tick: u32)
    requires
        p.wf(),
        count_upto(p.bars(), tick) <= u32::MAX,
    ensures
        ({
            let (bar_no, offset) = tick_location_spec(p.bars(), tick);
            &&& location_sums_fit(p.bars(), p.rhythm_spec(), p.last_rhythm_len(), bar_no, offset)
            &&& location_tick_spec(p.bars(), p.rhythm_spec(), p.last_rhythm_len(), bar_no, offset) == Ok::<u32, LocationError>(tick)
        }),
{
    lemma_count_upto(p.bars(), tick);
    let c = count_upto(p.bars(), tick);
    if c > 0 {
        let e = p.bars()[c - 1];
        assert(e.0 <= tick);
        assert(e.0 == e.1.start_tick_spec());
    }
}

/// Bars are numbered from 1 in the order of their start ticks: the start
/// tick of the `i`-th bar is at bar `i`, offset 0, and the location at bar
/// `i` and offset `o` lies `o` ticks after that start (or beyond the last
/// tick).
pub proof fn law_bar_numbers(p: &ProjectImpl, i: int, offset: int)
    requires
        p.wf(),
        1 <= i <= p.bars().len(),
        i <= u32::MAX,
        0 <= offset,
    ensures
        tick_location_spec(p.bars(), p.bars()[i - 1].1.start_tick) == (i, 0int),
        location_tick_spec(p.bars(), p.rhythm_spec(), p.last_rhythm_len(), i, offset) == if p.bars()[i - 1].1.start_tick + offset <= u32::MAX {
            Ok::<u32, LocationError>((p.bars()[i - 1].1.start_tick + offset) as u32)
        } else {
            Err::<u32, LocationError>(LocationError::Overflow)
        },
{
    let bars = p.bars();
    let t = bars[i - 1].1.start_tick;
    assert(bars[i - 1].0 == bars[i - 1].1.start_tick_spec());
    lemma_count_upto(bars, t);
    let c = count_upto(bars, t) as int;
    if c < i {
        assert(bars[i - 1].0 > t);
    }
    if c > i {
        assert(bars[i].0 <= t);
        assert(bars[i - 1].0 < bars[i].0);
    }
    assert(c == i);
}

/// Past the last bar, bars follow one another at the length of a bar of the
/// time signature in force at the last bar (of the project's time signature
/// where there is no bar): the location one bar further on lies that many
/// ticks later, or is beyond the last tick.
pub proof fn law_bars_past_last_follow_last_rhythm(p: &ProjectImpl, bar_no: int, offset: int)
    requires
        p.wf(),
        p.bars().len() <= bar_no,
        bar_no + 1 <= u32::MAX,
        0 <= offset,
    ensures
        ({
            let len = if p.bars().len() == 0 {
                rhythm_tick_len(p.rhythm_spec())
            } else {
                rhythm_tick_len(p.rhythm_at_spec(p.bars().last().1.start_tick))
            };
            match location_tick_spec(p.bars(), p.rhythm_spec(), p.last_rhythm_len(), bar_no, offset) {
                Ok(t) => location_tick_spec(p.bars(), p.rhythm_spec(), p.last_rhythm_len(), bar_no + 1, offset)
                    == if t + len <= u32::MAX { Ok::<u32, LocationError>((t + len) as u32) } else { Err::<u32, LocationError>(LocationError::Overflow) },
                Err(_) => location_tick_spec(p.bars(), p.rhythm_spec(), p.last_rhythm_len(), bar_no + 1, offset)
                    == Err::<u32, LocationError>(LocationError::Overflow),
            }
        }),
{
    let bars = p.bars();
    let n = bars.len() as int;
    let len = if n == 0 {
        rhythm_tick_len(p.rhythm_spec())
    } else {
        rhythm_tick_len(p.rhythm_at_spec(bars.last().1.start_tick))
    };
    let next = beyond_bars_tick(bars, p.rhythm_spec(), p.last_rhythm_len(), bar_no + 1, offset);
    lemma_tick_len_nonneg(p.rhythm_spec());
    if n > 0 {
        lemma_tick_len_nonneg(p.rhythm_at_spec(bars.last().1.start_tick));
    }
    assert(1 * len == len);
    if n == 0 {
        assert((bar_no + 1) * len == bar_no * len + len) by (nonlinear_arith);
        assert(next == bar_no * len + offset + len);
    } else {
        assert((bar_no + 1 - n) * len == (bar_no - n) * len + len) by (nonlinear_arith);
        assert(bars[n - 1] == bars.last());
        assert(bars[n - 1].0 == bars[n - 1].1.start_tick_spec());
        if bar_no > n {
            assert(next == beyond_bars_tick(bars, p.rhythm_spec(), p.last_rhythm_len(), bar_no, offset) + len);
        } else {
            assert(next == bars[n - 1].0 + offset + len);
        }
    }
}

/// The tick at which a note under `tick` stops sounding.
pub open spec fn note_end(tick: u32, n: Note) -> int {
    tick + n.duration_trimmer.applied(tick_length_of(n.duration) as u32)
}

/// No note of the bag stops sounding past the last tick.
pub open spec fn note_ends_fit(notes: Map<u32, Seq<Note>>) -> bool {
    forall|k: u32, j: int| #![trigger notes[k][j]]
        notes.contains_key(k) && 0 <= j < notes[k].len() ==> note_end(k, notes[k][j]) <= u32::MAX
}

/// `m` is the highest tick at which a note under a tick from `from` on stops
/// sounding, or 0 when none stops later.
pub open spec fn is_max_end(notes: Map<u32, Seq<Note>>, from: int, m: int) -> bool {
    &&& forall|k: u32, j: int| #![trigger notes[k][j]]
        k >= from && notes.contains_key(k) && 0 <= j < notes[k].len() ==> note_end(k, notes[k][j]) <= m
    &&& (m == 0 || exists|k: u32, j: int| #![trigger notes[k][j]]
        k >= from && notes.contains_key(k) && 0 <= j < notes[k].len() && note_end(k, notes[k][j]) == m)
}

/// `k` is the highest tick that has notes.
pub open spec fn is_last_key(notes: Map<u32, Seq<Note>>, k: u32) -> bool {
    notes.contains_key(k) && forall|j: u32| #[trigger] notes.contains_key(j) ==> j <= k
}

/// The highest tick that has notes.
pub open spec fn last_note_tick(notes: Map<u32, Seq<Note>>) -> u32 {
    choose|k: u32| is_last_key(notes, k)
}

/// The first tick of the notes looked at for the end of the notes: a note
/// sounds no longer than 3826 ticks, so those under earlier ticks end before
/// the last tick does.
pub open spec fn note_window(notes: Map<u32, Seq<Note>>) -> int {
    let last = last_note_tick(notes);
    if last < 3826 { 0 } else { last - 3826 }
}

/// The highest tick at which a note of the window stops sounding (see
/// `is_max_end`).
pub open spec fn notes_end(notes: Map<u32, Seq<Note>>) -> int {
    choose|m: int| is_max_end(notes, note_window(notes), m)
}

/// One highest end only.
proof fn lemma_max_end_unique(notes: Map<u32, Seq<Note>>, from: int, m1: int, m2: int)
    requires
        is_max_end(notes, from, m1),
        is_max_end(notes, from, m2),
    ensures
        m1 == m2,
{
    if m1 < m2 {
        let (k, j) = choose|k: u32, j: int| #![trigger notes[k][j]]
            k >= from && notes.contains_key(k) && 0 <= j < notes[k].len() && note_end(k, notes[k][j]) == m2;
        assert(note_end(k, notes[k][j]) <= m1);
    } else if m2 < m1 {
        let (k, j) = choose|k: u32, j: int| #![trigger notes[k][j]]
            k >= from && notes.contains_key(k) && 0 <= j < notes[k].len() && note_end(k, notes[k][j]) == m1;
        assert(note_end(k, notes[k][j]) <= m2);
    }
}

/// One highest tick only.
proof fn lemma_last_key_unique(notes: Map<u32, Seq<Note>>, k1: u32, k2: u32)
    requires
        is_last_key(notes, k1),
        is_last_key(notes, k2),
    ensures
        k1 == k2,
{
    assert(notes.contains_key(k1) && notes.contains_key(k2));
}

/// The last key of entries, if any.
pub open spec fn last_key_of<T>(e: Seq<(u32, T)>) -> Option<u32> {
    if e.len() == 0 { None } else { Some(e.last().0) }
}

impl ProjectImpl {
    /// The highest tick at which a note stops sounding, if there is a note.
    pub fn note_max_end_tick(&self) -> (r: Option<u32>)
        requires
            self.wf(),
            note_ends_fit(self.notes()),
        ensures
            self.notes().dom().is_empty() <==> r is None,
            r matches Some(m) ==> m == notes_end(self.notes()),
    {
        if note_bag_is_empty(&self.note_repo) {
            return None;
        }
        let last = match note_bag_last_tick(&self.note_repo) {
            Some(k) => k,
            None => 0,
        };
        let ghost notes = self.notes();
        proof {
            assert(is_last_key(notes, last));
            lemma_last_key_unique(notes, last, last_note_tick(notes));
        }
        let longest = Note::LONGEST_TICK_LEN();
        let start: u32 = if last < longest { 0 } else { last - longest };
        let entries = note_bag_from(&self.note_repo, start);
        let mut max_tick: u32 = 0;
        let mut i: usize = 0;
        while i < entries.len()
            invariant
                i <= entries@.len(),
                notes == self.notes(),
                note_ends_fit(notes),
                forall|j: int| 0 <= j < entries@.len() ==> (#[trigger] entries@[j]).0 >= start && notes.contains_key(entries@[j].0)
                    && notes[entries@[j].0].contains(*entries@[j].1),
                forall|j: int| 0 <= j < i ==> note_end((#[trigger] entries@[j]).0, *entries@[j].1) <= max_tick,
                max_tick == 0 || exists|j: int| 0 <= j < i && note_end((#[trigger] entries@[j]).0, *entries@[j].1) == max_tick,
            decreases entries@.len() - i,
        {
            let (tick, note) = &entries[i];
            proof {
                let k = entries@[i as int].0;
                let n = *entries@[i as int].1;
                assert(notes[k].contains(n));
                let jj = choose|jj: int| 0 <= jj < notes[k].len() && notes[k][jj] == n;
                assert(note_end(k, notes[k][jj]) <= u32::MAX);
            }
            let end = *tick + note.tick_len();
            if max_tick < end {
                max_tick = end;
            }
            i = i + 1;
        }
        proof {
            assert(is_max_end(notes, start as int, max_tick as int)) by {
                assert forall|k: u32, j: int| #![trigger notes[k][j]]
                    k >= start && notes.contains_key(k) && 0 <= j < notes[k].len() implies note_end(k, notes[k][j]) <= max_tick by {
                    let ii = choose|ii: int| 0 <= ii < entries@.len() && entries@[ii].0 == k && *entries@[ii].1 == notes[k][j];
                    assert(note_end(entries@[ii].0, *entries@[ii].1) <= max_tick);
                }
                if max_tick != 0 {
                    let ii = choose|ii: int| 0 <= ii < i && note_end((#[trigger] entries@[ii]).0, *entries@[ii].1) == max_tick;
                    let k = entries@[ii].0;
                    let jj = choose|jj: int| 0 <= jj < notes[k].len() && notes[k][jj] == *entries@[ii].1;
                    assert(note_end(k, notes[k][jj]) == max_tick);
                }
            }
            assert(start as int == note_window(notes));
            lemma_max_end_unique(notes, start as int, max_tick as int, notes_end(notes));
        }
        Some(max_tick)
    }

    /// The tick of the last tempo change, if any.
    fn tempo_max_tick(&self) -> (r: Option<u32>)
        ensures
            r == last_key_of(self.tempos()),
    {
        let e = tempo_store_slice(&self.tempo_repo);
        if e.len() == 0 { None } else { Some(e[e.len() - 1].0) }
    }

    /// The tick of the last dumper pedal change, if any.
    fn dumper_max_tick(&self) -> (r: Option<u32>)
        ensures
            r == last_key_of(self.dumpers()),
    {
        let e = ctrl_store_slice(&self.dumper_repo);
        if e.len() == 0 { None } else { Some(e[e.len() - 1].0) }
    }

    /// The tick of the last soft pedal change, if any.
    fn soft_max_tick(&self) -> (r: Option<u32>)
        ensures
            r == last_key_of(self.softs()),
    {
        let e = ctrl_store_slice(&self.soft_repo);
        if e.len() == 0 { None } else { Some(e[e.len() - 1].0) }
    }
}

/// Each entry holds an item under its start tick.
pub open spec fn keyed<T: HaveStartTick>(e: Seq<(u32, T)>) -> bool {
    forall|i: int| 0 <= i < e.len() ==> (#[trigger] e[i]).0 == e[i].1.start_tick_spec()
}

/// Each item of the map is kept under its start tick.
pub open spec fn map_keyed<T: HaveStartTick>(m: Map<u32, T>) -> bool {
    forall|k: u32| #[trigger] m.contains_key(k) ==> m[k].start_tick_spec() == k
}

/// With increasing keys, the map of entries gives each entry's value under its key.
pub proof fn lemma_entries_map_at<T>(e: Seq<(u32, T)>, i: int)
    requires
        keys_increasing(e),
        0 <= i < e.len(),
    ensures
        entries_map(e).contains_key(e[i].0),
        entries_map(e)[e[i].0] == e[i].1,
{
    reveal(entries_map);
    let k = e[i].0;
    assert(exists|j: int| 0 <= j < e.len() && (#[trigger] e[j]).0 == k);
    let j = choose|j: int| 0 <= j < e.len() && (#[trigger] e[j]).0 == k;
    if j < i {
        assert(e[j].0 < e[i].0);
    } else if i < j {
        assert(e[i].0 < e[j].0);
    }
}

/// With increasing keys, items are kept under their start ticks in the
/// entries exactly when they are in the map of the entries.
proof fn lemma_keyed<T: HaveStartTick>(e: Seq<(u32, T)>)
    requires
        keys_increasing(e),
    ensures
        keyed(e) <==> map_keyed(entries_map(e)),
{
    reveal(entries_map);
    if keyed(e) {
        assert forall|k: u32| #[trigger] entries_map(e).contains_key(k) implies entries_map(e)[k].start_tick_spec() == k by {
            let j = choose|j: int| 0 <= j < e.len() && (#[trigger] e[j]).0 == k;
            lemma_entries_map_at(e, j);
        }
    }
    if map_keyed(entries_map(e)) {
        assert forall|i: int| 0 <= i < e.len() implies (#[trigger] e[i]).0 == e[i].1.start_tick_spec() by {
            lemma_entries_map_at(e, i);
        }
    }
}

/// A bar that only marks a tick: no time signature, no key, no repeat symbol.
pub open spec fn is_plain_bar(b: Bar, tick: int) -> bool {
    &&& b.start_tick == tick
    &&& b.rhythm is None
    &&& b.key is None
    &&& b.repeats.bits() == 0
}

/// Bars put into a map under their start ticks, one after the other.
pub open spec fn bars_put(m: Map<u32, Bar>, bs: Seq<Bar>) -> Map<u32, Bar>
    decreases bs.len(),
{
    if bs.len() == 0 {
        m
    } else {
        bars_put(m, bs.drop_last()).insert(bs.last().start_tick, bs.last())
    }
}

/// `bs` are the bars of length `len` that follow the tick `from`, the fewest
/// that reach `upto`.
pub open spec fn is_fill(bs: Seq<Bar>, from: int, len: int, upto: int) -> bool {
    &&& (upto <= from ==> bs.len() == 0)
    &&& (upto > from ==> bs.len() > 0 && from + (bs.len() - 1) * len < upto && upto <= from + bs.len() * len)
    &&& forall|i: int| 0 <= i < bs.len() ==> is_plain_bar(#[trigger] bs[i], from + (i + 1) * len)
}

/// `k` is the highest key of the map.
pub open spec fn is_max_key<T>(m: Map<u32, T>, k: u32) -> bool {
    m.contains_key(k) && forall|j: u32| #[trigger] m.contains_key(j) ==> j <= k
}

/// The highest key of the map, or 0 when it is empty.
pub open spec fn max_key<T>(m: Map<u32, T>) -> int {
    if m.dom().is_empty() { 0 } else { (choose|k: u32| is_max_key(m, k)) as int }
}

/// The larger of two integers.
pub open spec fn max_of(a: int, b: int) -> int {
    if a < b { b } else { a }
}

/// A bar with a time signature is under `k`.
pub open spec fn has_rhythm_at(m: Map<u32, Bar>, k: u32) -> bool {
    m.contains_key(k) && m[k].rhythm is Some
}

/// The time signature of the last bar that sets one, if any.
pub open spec fn last_rhythm_in(m: Map<u32, Bar>) -> Option<Rhythm> {
    if exists|k: u32| has_rhythm_at(m, k) {
        m[choose|k: u32| has_rhythm_at(m, k) && forall|j: u32| #[trigger] has_rhythm_at(m, j) ==> j <= k].rhythm
    } else {
        None
    }
}

/// The tick the bars must reach: where the last note stops sounding, and
/// the last tempo and pedal changes.
pub open spec fn items_end(
    notes: Map<u32, Seq<Note>>,
    tempos: Map<u32, Tempo>,
    dumpers: Map<u32, CtrlChg>,
    softs: Map<u32, CtrlChg>,
) -> int {
    let n = if notes.dom().is_empty() { 0 } else { notes_end(notes) };
    max_of(max_of(max_of(n, max_key(tempos)), max_key(dumpers)), max_key(softs))
}

/// The length of the bars added after the bars: that of the time signature
/// of the last bar that sets one, else of `base`.
pub open spec fn fill_len_of(base: Rhythm, bars: Map<u32, Bar>) -> int {
    rhythm_tick_len(match last_rhythm_in(bars) { Some(r) => r, None => base })
}

/// The bars added after the bars to reach the end of the items stay within
/// the ticks, and so do the ends of the notes.
pub open spec fn fill_ok(
    base: Rhythm,
    bars: Map<u32, Bar>,
    notes: Map<u32, Seq<Note>>,
    tempos: Map<u32, Tempo>,
    dumpers: Map<u32, CtrlChg>,
    softs: Map<u32, CtrlChg>,
) -> bool {
    let from = max_key(bars);
    let upto = items_end(notes, tempos, dumpers, softs);
    &&& note_ends_fit(notes)
    &&& (from < upto ==> upto + fill_len_of(base, bars) <= u32::MAX + 1)
}

/// With increasing keys, the last key is the highest key of the map.
proof fn lemma_last_key_is_max<T>(e: Seq<(u32, T)>)
    requires
        keys_increasing(e),
    ensures
        max_key(entries_map(e)) == match last_key_of(e) { Some(k) => k as int, None => 0 },
        e.len() > 0 ==> is_max_key(entries_map(e), e.last().0),
{
    reveal(entries_map);
    if e.len() == 0 {
        assert(entries_map(e).dom() =~= Set::<u32>::empty());
    } else {
        let k = e.last().0;
        lemma_entries_map_at(e, e.len() - 1);
        assert forall|j: u32| #[trigger] entries_map(e).contains_key(j) implies j <= k by {
            let i = choose|i: int| 0 <= i < e.len() && (#[trigger] e[i]).0 == j;
            if i < e.len() - 1 {
                assert(e[i].0 < e[e.len() - 1].0);
            }
        }
        assert(is_max_key(entries_map(e), k));
        assert(!entries_map(e).dom().is_empty());
        let c = choose|c: u32| is_max_key(entries_map(e), c);
        assert(c <= k && k <= c);
    }
}

/// With increasing keys, the entries but the last give the map without the last key.
proof fn lemma_entries_map_drop_last<T>(e: Seq<(u32, T)>)
    requires
        keys_increasing(e),
        e.len() > 0,
    ensures
        keys_increasing(e.drop_last()),
        entries_map(e) == entries_map(e.drop_last()).insert(e.last().0, e.last().1),
        !entries_map(e.drop_last()).contains_key(e.last().0),
{
    reveal(entries_map);
    let d = e.drop_last();
    assert(keys_increasing(d)) by {
        assert forall|i: int, j: int| 0 <= i < j < d.len() implies (#[trigger] d[i]).0 < (#[trigger] d[j]).0 by {
            assert(d[i] == e[i] && d[j] == e[j]);
        }
    }
    let k = e.last().0;
    if entries_map(d).contains_key(k) {
        let i = choose|i: int| 0 <= i < d.len() && (#[trigger] d[i]).0 == k;
        assert(d[i] == e[i]);
        assert(e[i].0 < e[e.len() - 1].0);
    }
    let m1 = entries_map(e);
    let m2 = entries_map(d).insert(k, e.last().1);
    assert forall|x: u32| m1.contains_key(x) <==> m2.contains_key(x) by {
        if m1.contains_key(x) && x != k {
            let i = choose|i: int| 0 <= i < e.len() && (#[trigger] e[i]).0 == x;
            assert(i < d.len());
            assert(d[i] == e[i]);
        }
        if m2.contains_key(x) && x != k {
            let i = choose|i: int| 0 <= i < d.len() && (#[trigger] d[i]).0 == x;
            assert(d[i] == e[i]);
        }
        if x == k {
            lemma_entries_map_at(e, e.len() - 1);
        }
    }
    assert forall|x: u32| m1.contains_key(x) implies m1[x] == m2[x] by {
        let i = choose|i: int| 0 <= i < e.len() && (#[trigger] e[i]).0 == x;
        lemma_entries_map_at(e, i);
        if x != k {
            assert(i < d.len());
            assert(d[i] == e[i]);
            lemma_entries_map_at(d, i);
        } else {
            lemma_entries_map_at(e, e.len() - 1);
        }
    }
    assert(m1 =~= m2);
}

/// No entries, no key.
proof fn lemma_entries_map_empty<T>(e: Seq<(u32, T)>)
    requires
        e.len() == 0,
    ensures
        entries_map(e) == Map::<u32, T>::empty(),
{
    reveal(entries_map);
    assert(entries_map(e) =~= Map::<u32, T>::empty());
}

/// With increasing keys, the time signature of the last bar that sets one,
/// read from the entries or from their map.
proof fn lemma_last_rhythm_in(e: Seq<(u32, Bar)>)
    requires
        keys_increasing(e),
    ensures
        last_rhythm(e) == last_rhythm_in(entries_map(e)),
    decreases e.len(),
{
    let m = entries_map(e);
    if e.len() == 0 {
        lemma_entries_map_empty(e);
        assert(!exists|k: u32| has_rhythm_at(m, k));
    } else {
        let d = e.drop_last();
        let md = entries_map(d);
        let k = e.last().0;
        lemma_entries_map_drop_last(e);
        lemma_last_rhythm_in(d);
        lemma_last_key_is_max(e);
        assert(m == md.insert(k, e.last().1));
        assert(is_max_key(m, k));
        if e.last().1.rhythm is Some {
            assert(has_rhythm_at(m, k));
            assert forall|j: u32| #[trigger] has_rhythm_at(m, j) implies j <= k by {
                assert(m.contains_key(j));
            }
            let c = choose|c: u32| has_rhythm_at(m, c) && forall|j: u32| #[trigger] has_rhythm_at(m, j) ==> j <= c;
            assert(c <= k && k <= c);
        } else {
            assert forall|x: u32| has_rhythm_at(m, x) implies has_rhythm_at(md, x) by {
                assert(x != k);
            }
            assert forall|x: u32| has_rhythm_at(md, x) implies has_rhythm_at(m, x) by {
                assert(x != k);
            }
            if exists|x: u32| has_rhythm_at(m, x) {
                lemma_max_rhythm_key(d);
                let c1 = choose|c: u32| has_rhythm_at(m, c) && forall|j: u32| #[trigger] has_rhythm_at(m, j) ==> j <= c;
                let c2 = choose|c: u32| has_rhythm_at(md, c) && forall|j: u32| #[trigger] has_rhythm_at(md, j) ==> j <= c;
                assert(has_rhythm_at(m, c2));
                assert forall|j: u32| #[trigger] has_rhythm_at(m, j) implies j <= c2 by {
                    assert(has_rhythm_at(md, j));
                }
                assert(has_rhythm_at(md, c1));
                assert(c1 <= c2 && c2 <= c1);
                assert(m[c1] == md[c1]);
            } else {
                assert(!exists|x: u32| has_rhythm_at(md, x));
            }
        }
    }
}

/// With increasing keys, among the bars that set a time signature there is a last one.
proof fn lemma_max_rhythm_key(e: Seq<(u32, Bar)>)
    requires
        keys_increasing(e),
        exists|x: u32| has_rhythm_at(entries_map(e), x),
    ensures
        exists|c: u32| has_rhythm_at(entries_map(e), c) && forall|j: u32| #[trigger] has_rhythm_at(entries_map(e), j) ==> j <= c,
    decreases e.len(),
{
    let m = entries_map(e);
    if e.len() == 0 {
        lemma_entries_map_empty(e);
        let x = choose|x: u32| has_rhythm_at(m, x);
        assert(m.contains_key(x));
    } else {
        let d = e.drop_last();
        let md = entries_map(d);
        let k = e.last().0;
        lemma_entries_map_drop_last(e);
        lemma_last_key_is_max(e);
        assert(m == md.insert(k, e.last().1));
        assert(is_max_key(m, k));
        if e.last().1.rhythm is Some {
            assert(has_rhythm_at(m, k));
            assert forall|j: u32| #[trigger] has_rhythm_at(m, j) implies j <= k by {
                assert(m.contains_key(j));
            }
        } else {
            assert forall|x: u32| has_rhythm_at(m, x) implies has_rhythm_at(md, x) by {
                assert(x != k);
            }
            lemma_max_rhythm_key(d);
            let c = choose|c: u32| has_rhythm_at(md, c) && forall|j: u32| #[trigger] has_rhythm_at(md, j) ==> j <= c;
            assert(has_rhythm_at(m, c));
            assert forall|j: u32| #[trigger] has_rhythm_at(m, j) implies j <= c by {
                assert(has_rhythm_at(md, j));
            }
        }
    }
}

impl ProjectImpl {
    /// Where bars are added after: the start of the last bar, or 0.
    pub open spec fn fill_from_spec(&self) -> int {
        max_key(entries_map(self.bars()))
    }

    /// The tick the bars must reach.
    pub open spec fn fill_upto(&self) -> int {
        items_end(self.notes(), entries_map(self.tempos()), entries_map(self.dumpers()), entries_map(self.softs()))
    }

    /// The length of the bars added: that of the time signature in force at
    /// the last bar.
    pub open spec fn fill_len(&self) -> int {
        fill_len_of(self.rhythm_spec(), entries_map(self.bars()))
    }

    /// The bars added to reach the end of the items stay within the ticks.
    pub open spec fn fill_fits(&self) -> bool {
        fill_ok(self.rhythm_spec(), entries_map(self.bars()), self.notes(), entries_map(self.tempos()),
            entries_map(self.dumpers()), entries_map(self.softs()))
    }

    /// Puts the bar under its start tick, giving back the bar it replaces.
    fn add_bar_internal(&mut self, bar: Bar, select: bool) -> (r: Vec<Bar>)
        requires
            old(self).wf(),
        ensures
            final(self).wf(),
            entries_map(final(self).bars()) == entries_map(old(self).bars()).insert(bar.start_tick, bar),
            r@ == match value_at(entries_map(old(self).bars()), bar.start_tick) {
                Some(b) => seq![b],
                None => Seq::<Bar>::empty(),
            },
            final(self).notes() == old(self).notes(),
            final(self).tempos() == old(self).tempos(),
            final(self).dumpers() == old(self).dumpers(),
            final(self).softs() == old(self).softs(),
            final(self).rhythm_spec() == old(self).rhythm_spec(),
            final(self).key_spec() == old(self).key_spec(),
            final(self).grid_spec() == old(self).grid_spec(),
            final(self).bar_log() == puts_logged(old(self).bar_log(), entries_map(old(self).bars()), bar_recs(seq![bar]), select_metadata(select)),
            logs_but_bars_kept(*old(self), *final(self)),
    {
        let mut metadata = ModelChangeMetadata::new();
        if select {
            metadata.need_select = Some(true);
        }
        proof { lemma_keyed(self.bars()); }
        let origin = bar_store_add(&mut self.bar_repo, bar.start_tick, bar, metadata);
        proof {
            lemma_keyed(self.bars());
            assert(map_keyed(entries_map(self.bars())));
            let e = Seq::<(u32, Bar)>::empty();
            assert(bar_recs(seq![bar]) =~= seq![(bar.start_tick, bar)]);
            assert(bar_recs(seq![bar]).drop_last() =~= e);
            assert(bar_recs(seq![bar]).last() == (bar.start_tick, bar));
            assert(bulk_put(entries_map(old(self).bars()), e) == entries_map(old(self).bars()));
            assert(puts_logged(old(self).bar_log(), entries_map(old(self).bars()), e, select_metadata(select)) == old(self).bar_log());
        }
        match origin {
            Some(o) => vec![o],
            None => Vec::new(),
        }
    }

    /// The parts of the filling of bars, as the code reads them.
    proof fn lemma_fill_parts(&self)
        requires
            self.wf(),
        ensures
            self.fill_from_spec() == match last_key_of(self.bars()) { Some(k) => k as int, None => 0 },
            self.bars().len() > 0 ==> self.fill_from_spec() == self.bars().last().1.start_tick,
            rhythm_tick_len(self.rhythm_at_spec(self.fill_from_spec() as u32)) == self.fill_len(),
            max_key(entries_map(self.tempos())) == match last_key_of(self.tempos()) { Some(k) => k as int, None => 0 },
            max_key(entries_map(self.dumpers())) == match last_key_of(self.dumpers()) { Some(k) => k as int, None => 0 },
            max_key(entries_map(self.softs())) == match last_key_of(self.softs()) { Some(k) => k as int, None => 0 },
    {
        let e = self.bars();
        lemma_last_key_is_max(e);
        lemma_last_key_is_max(self.tempos());
        lemma_last_key_is_max(self.dumpers());
        lemma_last_key_is_max(self.softs());
        lemma_last_rhythm_in(e);
        let from = self.fill_from_spec() as u32;
        if e.len() == 0 {
            lemma_entries_map_empty(e);
            assert(count_upto(e, from) == 0);
            assert(e.take(0) =~= e);
        } else {
            assert(e[e.len() - 1].0 == e.last().1.start_tick);
            lemma_count_upto(e, from);
            let c = count_upto(e, from) as int;
            if c < e.len() {
                if c < e.len() - 1 {
                    assert(e[c].0 < e[e.len() - 1].0);
                }
                assert(e[c].0 > from);
            }
            assert(e.take(e.len() as int) =~= e);
        }
    }

    /// Adds plain bars after the last bar, of the length of the time
    /// signature in force there, until they reach where the last note stops
    /// sounding and the last tempo and pedal changes; gives back the bars
    /// added.
    fn replenish_bars(&mut self) -> (r: Vec<Bar>)
        requires
            old(self).wf(),
            old(self).fill_fits(),
        ensures
            final(self).wf(),
            is_fill(r@, old(self).fill_from_spec(), old(self).fill_len(), old(self).fill_upto()),
            r@.len() > 0 ==> old(self).fill_len() > 0,
            entries_map(final(self).bars()) == bars_put(entries_map(old(self).bars()), r@),
            final(self).bar_log() == puts_logged(old(self).bar_log(), entries_map(old(self).bars()), bar_recs(r@), ModelChangeMetadata { need_select: None, dragged: false }),
            logs_but_bars_kept(*old(self), *final(self)),
            final(self).notes() == old(self).notes(),
            final(self).tempos() == old(self).tempos(),
            final(self).dumpers() == old(self).dumpers(),
            final(self).softs() == old(self).softs(),
            final(self).rhythm_spec() == old(self).rhythm_spec(),
            final(self).key_spec() == old(self).key_spec(),
            final(self).grid_spec() == old(self).grid_spec(),
    {
        let ghost from = self.fill_from_spec();
        let ghost upto = self.fill_upto();
        let ghost start = entries_map(self.bars());
        let mut bar_tick: u32 = match self.last_bar() {
            Some((_, b)) => b.start_tick,
            None => 0,
        };
        proof { self.lemma_fill_parts(); }
        let note_end = match self.note_max_end_tick() {
            Some(t) => t,
            None => 0,
        };
        let tempo_end = match self.tempo_max_tick() {
            Some(t) => t,
            None => 0,
        };
        let dumper_end = match self.dumper_max_tick() {
            Some(t) => t,
            None => 0,
        };
        let soft_end = match self.soft_max_tick() {
            Some(t) => t,
            None => 0,
        };
        let mut max_end_tick = note_end;
        if max_end_tick < tempo_end {
            max_end_tick = tempo_end;
        }
        if max_end_tick < dumper_end {
            max_end_tick = dumper_end;
        }
        if max_end_tick < soft_end {
            max_end_tick = soft_end;
        }
        assert(max_end_tick == upto);
        let mut replenished_bars: Vec<Bar> = Vec::new();
        if max_end_tick <= bar_tick {
            return replenished_bars;
        }
        let bar_tick_len = self.rhythm_at(bar_tick).tick_len();
        let ghost len = bar_tick_len as int;
        proof { assert(0 * len == 0); }
        let ghost old_self = *self;
        while bar_tick < max_end_tick
            invariant
                self.wf(),
                from < upto,
                upto == max_end_tick,
                upto + len <= u32::MAX + 1,
                len == bar_tick_len,
                0 < len,
                bar_tick == from + replenished_bars@.len() * len,
                replenished_bars@.len() > 0 ==> from + (replenished_bars@.len() - 1) * len < upto,
                forall|i: int| 0 <= i < replenished_bars@.len() ==> is_plain_bar(#[trigger] replenished_bars@[i], from + (i + 1) * len),
                entries_map(self.bars()) == bars_put(start, replenished_bars@),
                self.bar_log() == puts_logged(old_self.bar_log(), start, bar_recs(replenished_bars@), ModelChangeMetadata { need_select: None, dragged: false }),
                logs_but_bars_kept(old_self, *self),
                self.notes() == old_self.notes(),
                self.tempos() == old_self.tempos(),
                self.dumpers() == old_self.dumpers(),
                self.softs() == old_self.softs(),
                self.rhythm_spec() == old_self.rhythm_spec(),
                self.key_spec() == old_self.key_spec(),
                self.grid_spec() == old_self.grid_spec(),
            decreases max_end_tick as int + bar_tick_len as int - bar_tick as int,
        {
            let ghost n = replenished_bars@.len() as int;
            proof {
                assert((n + 1) * len == n * len + len) by (nonlinear_arith);
            }
            bar_tick = bar_tick + bar_tick_len;
            let bar = Bar::new(bar_tick, None, None, RepeatSet::EMPTY());
            proof { lemma_bars_put_bulk(start, replenished_bars@); }
            self.add_bar_internal(bar, false);
            let ghost before = replenished_bars@;
            replenished_bars.push(bar);
            proof {
                assert(replenished_bars@.drop_last() =~= before);
                assert(bar_recs(replenished_bars@) =~= bar_recs(before).push((bar.start_tick, bar)));
                assert(bar_recs(seq![bar]) =~= seq![(bar.start_tick, bar)]);
                lemma_puts_logged_push(old_self.bar_log(), start, bar_recs(before), (bar.start_tick, bar), ModelChangeMetadata { need_select: None, dragged: false });
            }
        }
        replenished_bars
    }
}

/// A map with the keys taken out one after the other.
pub open spec fn remove_keys<T>(m: Map<u32, T>, ks: Seq<u32>) -> Map<u32, T>
    decreases ks.len(),
{
    if ks.len() == 0 {
        m
    } else {
        remove_keys(m, ks.drop_last()).remove(ks.last())
    }
}

/// A log after entries are put in one after the other, as `add` logs them:
/// the value an entry replaces, if any, as removed, then the entry's value as
/// added.
pub open spec fn puts_logged<T>(log: Option<Seq<StoreLogEvent<T>>>, m: Map<u32, T>, recs: Seq<(u32, T)>, md: ModelChangeMetadata) -> Option<Seq<StoreLogEvent<T>>>
    decreases recs.len(),
{
    if recs.len() == 0 {
        log
    } else {
        let l = puts_logged(log, m, recs.drop_last(), md);
        let replaced = match value_at(bulk_put(m, recs.drop_last()), recs.last().0) {
            Some(o) => fired(l, StoreLogEvent::Removed(o)),
            None => l,
        };
        fired(replaced, (StoreLogEvent::Added { added: recs.last().1, metadata: md }))
    }
}

/// A log after keys are taken out one after the other, as `remove` logs
/// them: the value of each key that was there, as removed.
pub open spec fn takes_logged<T>(log: Option<Seq<StoreLogEvent<T>>>, m: Map<u32, T>, ks: Seq<u32>) -> Option<Seq<StoreLogEvent<T>>>
    decreases ks.len(),
{
    if ks.len() == 0 {
        log
    } else {
        let l = takes_logged(log, m, ks.drop_last());
        match value_at(remove_keys(m, ks.drop_last()), ks.last()) {
            Some(o) => fired(l, StoreLogEvent::Removed(o)),
            None => l,
        }
    }
}

/// A log of notes after notes are taken out one after the other, each from
/// under the tick at which it sounds: each note that was there, as removed.
pub open spec fn notes_taken_logged(log: Option<Seq<BagLogEvent>>, m: Map<u32, Seq<Note>>, ns: Seq<Note>) -> Option<Seq<BagLogEvent>>
    decreases ns.len(),
{
    if ns.len() == 0 {
        log
    } else {
        let l = notes_taken_logged(log, m, ns.drop_last());
        match bag_remove(notes_taken_out(m, ns.drop_last()), note_start_tick(ns.last()), ns.last()).1 {
            Some(_) => fired(l, BagLogEvent::Removed(ns.last())),
            None => l,
        }
    }
}

/// A log of notes after notes are added one after the other: each note, as
/// added.
pub open spec fn notes_put_logged(log: Option<Seq<BagLogEvent>>, ns: Seq<Note>, md: ModelChangeMetadata) -> Option<Seq<BagLogEvent>>
    decreases ns.len(),
{
    if ns.len() == 0 {
        log
    } else {
        fired(notes_put_logged(log, ns.drop_last(), md), (BagLogEvent::Added { added: ns.last(), metadata: md }))
    }
}

/// The logs of `after` but that of bars are those of `before`.
pub open spec fn logs_but_bars_kept(before: ProjectImpl, after: ProjectImpl) -> bool {
    &&& after.note_log() == before.note_log()
    &&& after.tempo_log() == before.tempo_log()
    &&& after.dumper_log() == before.dumper_log()
    &&& after.soft_log() == before.soft_log()
}

/// Putting one more record logs what putting that record alone into the map
/// reached logs.
proof fn lemma_puts_logged_push<T>(log: Option<Seq<StoreLogEvent<T>>>, m: Map<u32, T>, recs: Seq<(u32, T)>, r: (u32, T), md: ModelChangeMetadata)
    ensures
        puts_logged(log, m, recs.push(r), md) == puts_logged(puts_logged(log, m, recs, md), bulk_put(m, recs), seq![r], md),
{
    let e = Seq::<(u32, T)>::empty();
    let l = puts_logged(log, m, recs, md);
    assert(recs.push(r).drop_last() =~= recs);
    assert(recs.push(r).last() == r);
    assert(seq![r].drop_last() =~= e);
    assert(seq![r].last() == r);
    assert(bulk_put(bulk_put(m, recs), e) == bulk_put(m, recs));
    assert(puts_logged(l, bulk_put(m, recs), e, md) == l);
}

/// Putting one record logs the value it replaces, if any, then the record's.
proof fn lemma_puts_logged_one<T>(log: Option<Seq<StoreLogEvent<T>>>, m: Map<u32, T>, r: (u32, T), md: ModelChangeMetadata)
    ensures
        puts_logged(log, m, seq![r], md) == fired(
            match value_at(m, r.0) {
                Some(o) => fired(log, StoreLogEvent::Removed(o)),
                None => log,
            },
            (StoreLogEvent::Added { added: r.1, metadata: md }),
        ),
{
    let e = Seq::<(u32, T)>::empty();
    assert(seq![r].drop_last() =~= e);
    assert(seq![r].last() == r);
    assert(bulk_put(m, e) == m);
    assert(puts_logged(log, m, e, md) == log);
}

/// Putting bars under their start ticks is putting their records.
proof fn lemma_bars_put_bulk(m: Map<u32, Bar>, bs: Seq<Bar>)
    ensures
        bars_put(m, bs) == bulk_put(m, bar_recs(bs)),
    decreases bs.len(),
{
    if bs.len() > 0 {
        lemma_bars_put_bulk(m, bs.drop_last());
        assert(bar_recs(bs).drop_last() =~= bar_recs(bs.drop_last()));
    }
}

/// The start ticks of bars.
pub open spec fn bar_keys(bs: Seq<Bar>) -> Seq<u32> {
    bs.map_values(|b: Bar| b.start_tick)
}

/// Bars as records under their start ticks.
pub open spec fn bar_recs(bs: Seq<Bar>) -> Seq<(u32, Bar)> {
    bs.map_values(|b: Bar| (b.start_tick, b))
}

/// The ticks of tempo changes.
pub open spec fn tempo_keys(ts: Seq<Tempo>) -> Seq<u32> {
    ts.map_values(|t: Tempo| t.start_tick)
}

/// Tempo changes as records under their ticks.
pub open spec fn tempo_recs(ts: Seq<Tempo>) -> Seq<(u32, Tempo)> {
    ts.map_values(|t: Tempo| (t.start_tick, t))
}

/// The ticks of pedal changes.
pub open spec fn ctrl_keys(cs: Seq<CtrlChg>) -> Seq<u32> {
    cs.map_values(|c: CtrlChg| c.start_tick)
}

/// Pedal changes as records under their ticks.
pub open spec fn ctrl_recs(cs: Seq<CtrlChg>) -> Seq<(u32, CtrlChg)> {
    cs.map_values(|c: CtrlChg| (c.start_tick, c))
}

/// Notes as records under the ticks at which they sound.
pub open spec fn note_recs(ns: Seq<Note>) -> Seq<(u32, Note)> {
    ns.map_values(|n: Note| (note_start_tick(n), n))
}

/// Notes taken out of a bag one after the other, each from under the tick
/// at which it sounds.
pub open spec fn notes_taken_out(m: Map<u32, Seq<Note>>, ns: Seq<Note>) -> Map<u32, Seq<Note>>
    decreases ns.len(),
{
    if ns.len() == 0 {
        m
    } else {
        bag_remove(notes_taken_out(m, ns.drop_last()), note_start_tick(ns.last()), ns.last()).0
    }
}

/// A copy of a note.
fn copy_note(n: &Note) -> (r: Note)
    ensures
        r == *n,
{
    Note { ..*n }
}

/// Takes the bars' start ticks out of a store of bars.
fn take_out_bars(s: &mut Store<u32, Bar, ModelChangeMetadata>, bs: &Vec<Bar>)
    requires
        keys_increasing(bar_entries(*old(s))),
    ensures
        keys_increasing(bar_entries(*final(s))),
        entries_map(bar_entries(*final(s))) == remove_keys(entries_map(bar_entries(*old(s))), bar_keys(bs@)),
        bar_event_log(*final(s)) == takes_logged(bar_event_log(*old(s)), entries_map(bar_entries(*old(s))), bar_keys(bs@)),
{
    let ghost start = entries_map(bar_entries(*s));
    let ghost log = bar_event_log(*s);
    let mut i: usize = 0;
    while i < bs.len()
        invariant
            i <= bs@.len(),
            keys_increasing(bar_entries(*s)),
            entries_map(bar_entries(*s)) == remove_keys(start, bar_keys(bs@).take(i as int)),
            bar_event_log(*s) == takes_logged(log, start, bar_keys(bs@).take(i as int)),
        decreases bs@.len() - i,
    {
        bar_store_remove(s, bs[i].start_tick);
        proof { assert(bar_keys(bs@).take(i + 1).drop_last() =~= bar_keys(bs@).take(i as int)); }
        i = i + 1;
    }
    proof { assert(bar_keys(bs@).take(bs@.len() as int) =~= bar_keys(bs@)); }
}

/// Puts the bars under their start ticks into a store of bars.
fn put_in_bars(s: &mut Store<u32, Bar, ModelChangeMetadata>, bs: &Vec<Bar>, metadata: ModelChangeMetadata)
    requires
        keys_increasing(bar_entries(*old(s))),
    ensures
        keys_increasing(bar_entries(*final(s))),
        entries_map(bar_entries(*final(s))) == bulk_put(entries_map(bar_entries(*old(s))), bar_recs(bs@)),
        bar_event_log(*final(s)) == puts_logged(bar_event_log(*old(s)), entries_map(bar_entries(*old(s))), bar_recs(bs@), metadata),
{
    let ghost start = entries_map(bar_entries(*s));
    let ghost log = bar_event_log(*s);
    let mut i: usize = 0;
    while i < bs.len()
        invariant
            i <= bs@.len(),
            keys_increasing(bar_entries(*s)),
            entries_map(bar_entries(*s)) == bulk_put(start, bar_recs(bs@).take(i as int)),
            bar_event_log(*s) == puts_logged(log, start, bar_recs(bs@).take(i as int), metadata),
        decreases bs@.len() - i,
    {
        let b = bs[i];
        bar_store_add(s, b.start_tick, b, metadata);
        proof { assert(bar_recs(bs@).take(i + 1).drop_last() =~= bar_recs(bs@).take(i as int)); }
        i = i + 1;
    }
    proof { assert(bar_recs(bs@).take(bs@.len() as int) =~= bar_recs(bs@)); }
}

/// Takes the ticks of the tempo changes out of a store of tempos.
fn take_out_tempos(s: &mut Store<u32, Tempo, ModelChangeMetadata>, ts: &Vec<Tempo>)
    requires
        keys_increasing(tempo_entries(*old(s))),
    ensures
        keys_increasing(tempo_entries(*final(s))),
        entries_map(tempo_entries(*final(s))) == remove_keys(entries_map(tempo_entries(*old(s))), tempo_keys(ts@)),
        tempo_event_log(*final(s)) == takes_logged(tempo_event_log(*old(s)), entries_map(tempo_entries(*old(s))), tempo_keys(ts@)),
{
    let ghost start = entries_map(tempo_entries(*s));
    let ghost log = tempo_event_log(*s);
    let mut i: usize = 0;
    while i < ts.len()
        invariant
            i <= ts@.len(),
            keys_increasing(tempo_entries(*s)),
            entries_map(tempo_entries(*s)) == remove_keys(start, tempo_keys(ts@).take(i as int)),
            tempo_event_log(*s) == takes_logged(log, start, tempo_keys(ts@).take(i as int)),
        decreases ts@.len() - i,
    {
        tempo_store_remove(s, ts[i].start_tick);
        proof { assert(tempo_keys(ts@).take(i + 1).drop_last() =~= tempo_keys(ts@).take(i as int)); }
        i = i + 1;
    }
    proof { assert(tempo_keys(ts@).take(ts@.len() as int) =~= tempo_keys(ts@)); }
}

/// Puts the tempo changes under their ticks into a store of tempos.
fn put_in_tempos(s: &mut Store<u32, Tempo, ModelChangeMetadata>, ts: &Vec<Tempo>, metadata: ModelChangeMetadata)
    requires
        keys_increasing(tempo_entries(*old(s))),
    ensures
        keys_increasing(tempo_entries(*final(s))),
        entries_map(tempo_entries(*final(s))) == bulk_put(entries_map(tempo_entries(*old(s))), tempo_recs(ts@)),
        tempo_event_log(*final(s)) == puts_logged(tempo_event_log(*old(s)), entries_map(tempo_entries(*old(s))), tempo_recs(ts@), metadata),
{
    let ghost start = entries_map(tempo_entries(*s));
    let ghost log = tempo_event_log(*s);
    let mut i: usize = 0;
    while i < ts.len()
        invariant
            i <= ts@.len(),
            keys_increasing(tempo_entries(*s)),
            entries_map(tempo_entries(*s)) == bulk_put(start, tempo_recs(ts@).take(i as int)),
            tempo_event_log(*s) == puts_logged(log, start, tempo_recs(ts@).take(i as int), metadata),
        decreases ts@.len() - i,
    {
        let t = ts[i];
        tempo_store_add(s, t.start_tick, t, metadata);
        proof { assert(tempo_recs(ts@).take(i + 1).drop_last() =~= tempo_recs(ts@).take(i as int)); }
        i = i + 1;
    }
    proof { assert(tempo_recs(ts@).take(ts@.len() as int) =~= tempo_recs(ts@)); }
}

/// Takes the ticks of the pedal changes out of a store of pedal changes.
fn take_out_ctrls(s: &mut Store<u32, CtrlChg, ModelChangeMetadata>, cs: &Vec<CtrlChg>)
    requires
        keys_increasing(ctrl_entries(*old(s))),
    ensures
        keys_increasing(ctrl_entries(*final(s))),
        entries_map(ctrl_entries(*final(s))) == remove_keys(entries_map(ctrl_entries(*old(s))), ctrl_keys(cs@)),
        ctrl_event_log(*final(s)) == takes_logged(ctrl_event_log(*old(s)), entries_map(ctrl_entries(*old(s))), ctrl_keys(cs@)),
{
    let ghost start = entries_map(ctrl_entries(*s));
    let ghost log = ctrl_event_log(*s);
    let mut i: usize = 0;
    while i < cs.len()
        invariant
            i <= cs@.len(),
            keys_increasing(ctrl_entries(*s)),
            entries_map(ctrl_entries(*s)) == remove_keys(start, ctrl_keys(cs@).take(i as int)),
            ctrl_event_log(*s) == takes_logged(log, start, ctrl_keys(cs@).take(i as int)),
        decreases cs@.len() - i,
    {
        ctrl_store_remove(s, cs[i].start_tick);
        proof { assert(ctrl_keys(cs@).take(i + 1).drop_last() =~= ctrl_keys(cs@).take(i as int)); }
        i = i + 1;
    }
    proof { assert(ctrl_keys(cs@).take(cs@.len() as int) =~= ctrl_keys(cs@)); }
}

/// Puts the pedal changes under their ticks into a store of pedal changes.
fn put_in_ctrls(s: &mut Store<u32, CtrlChg, ModelChangeMetadata>, cs: &Vec<CtrlChg>, metadata: ModelChangeMetadata)
    requires
        keys_increasing(ctrl_entries(*old(s))),
    ensures
        keys_increasing(ctrl_entries(*final(s))),
        entries_map(ctrl_entries(*final(s))) == bulk_put(entries_map(ctrl_entries(*old(s))), ctrl_recs(cs@)),
        ctrl_event_log(*final(s)) == puts_logged(ctrl_event_log(*old(s)), entries_map(ctrl_entries(*old(s))), ctrl_recs(cs@), metadata),
{
    let ghost start = entries_map(ctrl_entries(*s));
    let ghost log = ctrl_event_log(*s);
    let mut i: usize = 0;
    while i < cs.len()
        invariant
            i <= cs@.len(),
            keys_increasing(ctrl_entries(*s)),
            entries_map(ctrl_entries(*s)) == bulk_put(start, ctrl_recs(cs@).take(i as int)),
            ctrl_event_log(*s) == puts_logged(log, start, ctrl_recs(cs@).take(i as int), metadata),
        decreases cs@.len() - i,
    {
        let c = cs[i];
        ctrl_store_add(s, c.start_tick, c, metadata);
        proof { assert(ctrl_recs(cs@).take(i + 1).drop_last() =~= ctrl_recs(cs@).take(i as int)); }
        i = i + 1;
    }
    proof { assert(ctrl_recs(cs@).take(cs@.len() as int) =~= ctrl_recs(cs@)); }
}

/// Takes each note out of the bag from under the tick at which it sounds.
#[verifier::spinoff_prover]
fn take_out_notes(s: &mut BagStore<u32, Rc<Note>, ModelChangeMetadata>, ns: &Vec<Note>)
    ensures
        note_bag(*final(s)) == notes_taken_out(note_bag(*old(s)), ns@),
        note_event_log(*final(s)) == notes_taken_logged(note_event_log(*old(s)), note_bag(*old(s)), ns@),
{
    let ghost start = note_bag(*s);
    let ghost log = note_event_log(*s);
    let mut i: usize = 0;
    while i < ns.len()
        invariant
            i <= ns@.len(),
            note_bag(*s) == notes_taken_out(start, ns@.take(i as int)),
            note_event_log(*s) == notes_taken_logged(log, start, ns@.take(i as int)),
        decreases ns@.len() - i,
    {
        let n = &ns[i];
        let note = Rc::new(copy_note(n));
        let ghost before = note_bag(*s);
        note_bag_remove(s, n.start_tick(), &note);
        proof {
            let t = ns@.take(i + 1);
            assert(t.drop_last() =~= ns@.take(i as int));
            assert(t.last() == ns@[i as int]);
            assert(note_bag(*s) == bag_remove(before, note_start_tick(ns@[i as int]), ns@[i as int]).0);
        }
        i = i + 1;
    }
    proof { assert(ns@.take(ns@.len() as int) =~= ns@); }
}

/// Adds each note to the bag under the tick at which it sounds.
fn put_in_notes(s: &mut BagStore<u32, Rc<Note>, ModelChangeMetadata>, ns: &Vec<Note>, metadata: ModelChangeMetadata)
    ensures
        note_bag(*final(s)) == bag_bulk_add(note_bag(*old(s)), note_recs(ns@)),
        note_event_log(*final(s)) == notes_put_logged(note_event_log(*old(s)), ns@, metadata),
{
    let ghost start = note_bag(*s);
    let ghost log = note_event_log(*s);
    let mut i: usize = 0;
    while i < ns.len()
        invariant
            i <= ns@.len(),
            note_bag(*s) == bag_bulk_add(start, note_recs(ns@).take(i as int)),
            note_event_log(*s) == notes_put_logged(log, ns@.take(i as int), metadata),
        decreases ns@.len() - i,
    {
        let n = &ns[i];
        let note = Rc::new(copy_note(n));
        note_bag_add(s, n.start_tick(), note, metadata);
        proof {
            assert(note_recs(ns@).take(i + 1).drop_last() =~= note_recs(ns@).take(i as int));
            assert(ns@.take(i + 1).drop_last() =~= ns@.take(i as int));
        }
        i = i + 1;
    }
    proof {
        assert(note_recs(ns@).take(ns@.len() as int) =~= note_recs(ns@));
        assert(ns@.take(ns@.len() as int) =~= ns@);
    }
}

/// Taking keys out keeps each item under its start tick.
proof fn lemma_remove_keys_keyed<T: HaveStartTick>(m: Map<u32, T>, ks: Seq<u32>)
    requires
        map_keyed(m),
    ensures
        map_keyed(remove_keys(m, ks)),
    decreases ks.len(),
{
    if ks.len() > 0 {
        lemma_remove_keys_keyed(m, ks.drop_last());
    }
}

/// Putting records of items under their start ticks keeps each item under its start tick.
proof fn lemma_bulk_put_keyed<T: HaveStartTick>(m: Map<u32, T>, recs: Seq<(u32, T)>)
    requires
        map_keyed(m),
        keyed(recs),
    ensures
        map_keyed(bulk_put(m, recs)),
    decreases recs.len(),
{
    if recs.len() > 0 {
        assert(recs.last() == recs[recs.len() - 1]);
        lemma_bulk_put_keyed(m, recs.drop_last());
    }
}

/// The first step of a change keeps each item under its start tick, and
/// takes new entries that hold items under their start ticks.
proof fn lemma_change_taken_keyed<T: HaveStartTick>(m: Map<u32, T>, ft: Seq<(u32, (u32, T))>)
    requires
        map_keyed(m),
        forall|i: int| 0 <= i < ft.len() ==> (#[trigger] ft[i]).1.0 == ft[i].1.1.start_tick_spec(),
    ensures
        map_keyed(change_taken(m, ft).0),
        keyed(change_taken(m, ft).1),
    decreases ft.len(),
{
    if ft.len() > 0 {
        assert(ft.last() == ft[ft.len() - 1]);
        lemma_change_taken_keyed(m, ft.drop_last());
    }
}

/// Records made of items under their start ticks.
proof fn lemma_recs_keyed(bs: Seq<Bar>, ts: Seq<Tempo>, cs: Seq<CtrlChg>)
    ensures
        keyed(bar_recs(bs)),
        keyed(tempo_recs(ts)),
        keyed(ctrl_recs(cs)),
{
}

/// A change of a project that can be undone and redone: a new time
/// signature, key or grid (each with the one before and the one after), or
/// items added and removed.
#[derive(PartialEq, Debug)]
pub enum ProjectCmd {
    SetRhythm(Rhythm, Rhythm),
    SetKey(Key, Key),
    SetGrid(Grid, Grid),
    ModelChanged { added: Models, removed: Models, metadata: ModelChangeMetadata },
}

/// Two projects have the same items.
pub open spec fn same_items(a: ProjectImpl, b: ProjectImpl) -> bool {
    &&& a.notes() == b.notes()
    &&& a.bars() == b.bars()
    &&& a.tempos() == b.tempos()
    &&& a.dumpers() == b.dumpers()
    &&& a.softs() == b.softs()
}

/// `after` is `before` with the items of `out` taken out, then those of `put` put in.
pub open spec fn models_swapped(before: ProjectImpl, after: ProjectImpl, out: Models, put: Models) -> bool {
    &&& after.rhythm_spec() == before.rhythm_spec()
    &&& after.key_spec() == before.key_spec()
    &&& after.grid_spec() == before.grid_spec()
    &&& after.notes() == bag_bulk_add(notes_taken_out(before.notes(), out.notes@), note_recs(put.notes@))
    &&& entries_map(after.bars()) == bulk_put(remove_keys(entries_map(before.bars()), bar_keys(out.bars@)), bar_recs(put.bars@))
    &&& entries_map(after.tempos()) == bulk_put(remove_keys(entries_map(before.tempos()), tempo_keys(out.tempos@)), tempo_recs(put.tempos@))
    &&& entries_map(after.dumpers()) == bulk_put(remove_keys(entries_map(before.dumpers()), ctrl_keys(out.dumpers@)), ctrl_recs(put.dumpers@))
    &&& entries_map(after.softs()) == bulk_put(remove_keys(entries_map(before.softs()), ctrl_keys(out.softs@)), ctrl_recs(put.softs@))
}

/// The logs of `after` are those of `before` with what taking the items of
/// `out` out, then putting those of `put` in with `md`, logs.
pub open spec fn logs_swapped(before: ProjectImpl, after: ProjectImpl, out: Models, put: Models, md: ModelChangeMetadata) -> bool {
    &&& after.note_log() == notes_put_logged(notes_taken_logged(before.note_log(), before.notes(), out.notes@), put.notes@, md)
    &&& after.bar_log() == puts_logged(takes_logged(before.bar_log(), entries_map(before.bars()), bar_keys(out.bars@)),
            remove_keys(entries_map(before.bars()), bar_keys(out.bars@)), bar_recs(put.bars@), md)
    &&& after.tempo_log() == puts_logged(takes_logged(before.tempo_log(), entries_map(before.tempos()), tempo_keys(out.tempos@)),
            remove_keys(entries_map(before.tempos()), tempo_keys(out.tempos@)), tempo_recs(put.tempos@), md)
    &&& after.dumper_log() == puts_logged(takes_logged(before.dumper_log(), entries_map(before.dumpers()), ctrl_keys(out.dumpers@)),
            remove_keys(entries_map(before.dumpers()), ctrl_keys(out.dumpers@)), ctrl_recs(put.dumpers@), md)
    &&& after.soft_log() == puts_logged(takes_logged(before.soft_log(), entries_map(before.softs()), ctrl_keys(out.softs@)),
            remove_keys(entries_map(before.softs()), ctrl_keys(out.softs@)), ctrl_recs(put.softs@), md)
}

/// The stores of `after` hold the same logs as those of `before`.
pub open spec fn logs_kept(before: ProjectImpl, after: ProjectImpl) -> bool {
    &&& after.note_log() == before.note_log()
    &&& after.bar_log() == before.bar_log()
    &&& after.tempo_log() == before.tempo_log()
    &&& after.dumper_log() == before.dumper_log()
    &&& after.soft_log() == before.soft_log()
}

/// What undoing the command logs: nothing for a setting; for items, what
/// taking those added out and putting those removed back in logs.
pub open spec fn undo_logged(cmd: ProjectCmd, before: ProjectImpl, after: ProjectImpl) -> bool {
    match cmd {
        ProjectCmd::ModelChanged { added, removed, metadata } => logs_swapped(before, after, added, removed, metadata),
        _ => logs_kept(before, after),
    }
}

/// What doing (or redoing) the command logs: nothing for a setting; for
/// items, what taking those removed out and putting those added in logs.
pub open spec fn redo_logged(cmd: ProjectCmd, before: ProjectImpl, after: ProjectImpl) -> bool {
    match cmd {
        ProjectCmd::ModelChanged { added, removed, metadata } => logs_swapped(before, after, removed, added, metadata),
        _ => logs_kept(before, after),
    }
}

/// `after` is `before` with only the time signature, key and grid set.
pub open spec fn settings_set(before: ProjectImpl, after: ProjectImpl, rhythm: Rhythm, key: Key, grid: Grid) -> bool {
    &&& after.rhythm_spec() == rhythm
    &&& after.key_spec() == key
    &&& after.grid_spec() == grid
    &&& same_items(before, after)
}

/// What undoing the command does: the old setting comes back, or the items
/// added are taken out and those removed put back.
pub open spec fn undone(cmd: ProjectCmd, before: ProjectImpl, after: ProjectImpl) -> bool {
    match cmd {
        ProjectCmd::SetRhythm(o, _) => settings_set(before, after, o, before.key_spec(), before.grid_spec()),
        ProjectCmd::SetKey(o, _) => settings_set(before, after, before.rhythm_spec(), o, before.grid_spec()),
        ProjectCmd::SetGrid(o, _) => settings_set(before, after, before.rhythm_spec(), before.key_spec(), o),
        ProjectCmd::ModelChanged { added, removed, .. } => models_swapped(before, after, added, removed),
    }
}

/// What doing (or redoing) the command does: the new setting, or the items
/// removed are taken out and those added put in.
pub open spec fn redone(cmd: ProjectCmd, before: ProjectImpl, after: ProjectImpl) -> bool {
    match cmd {
        ProjectCmd::SetRhythm(_, n) => settings_set(before, after, n, before.key_spec(), before.grid_spec()),
        ProjectCmd::SetKey(_, n) => settings_set(before, after, before.rhythm_spec(), n, before.grid_spec()),
        ProjectCmd::SetGrid(_, n) => settings_set(before, after, before.rhythm_spec(), before.key_spec(), n),
        ProjectCmd::ModelChanged { added, removed, .. } => models_swapped(before, after, removed, added),
    }
}

impl ProjectImpl {
    /// Takes the items of `out` out (notes from under the ticks at which
    /// they sound, the others by tick), then puts those of `put` in.
    fn swap_models(&mut self, out: &Models, put: &Models, metadata: ModelChangeMetadata)
        requires
            old(self).wf(),
        ensures
            final(self).wf(),
            models_swapped(*old(self), *final(self), *out, *put),
            logs_swapped(*old(self), *final(self), *out, *put, metadata),
    {
        proof {
            lemma_keyed(self.bars());
            lemma_keyed(self.tempos());
            lemma_keyed(self.dumpers());
            lemma_keyed(self.softs());
        }
        let ghost sb = entries_map(self.bars());
        let ghost st = entries_map(self.tempos());
        let ghost sd = entries_map(self.dumpers());
        let ghost ss = entries_map(self.softs());
        take_out_notes(&mut self.note_repo, &out.notes);
        take_out_bars(&mut self.bar_repo, &out.bars);
        take_out_tempos(&mut self.tempo_repo, &out.tempos);
        take_out_ctrls(&mut self.dumper_repo, &out.dumpers);
        take_out_ctrls(&mut self.soft_repo, &out.softs);
        put_in_notes(&mut self.note_repo, &put.notes, metadata);
        put_in_bars(&mut self.bar_repo, &put.bars, metadata);
        put_in_tempos(&mut self.tempo_repo, &put.tempos, metadata);
        put_in_ctrls(&mut self.dumper_repo, &put.dumpers, metadata);
        put_in_ctrls(&mut self.soft_repo, &put.softs, metadata);
        proof {
            lemma_notes_taken_out_wf(old(self).notes(), out.notes@);
            lemma_note_recs_keyed(put.notes@);
            lemma_bag_bulk_add_wf(notes_taken_out(old(self).notes(), out.notes@), note_recs(put.notes@));
            lemma_recs_keyed(put.bars@, put.tempos@, put.dumpers@);
            lemma_recs_keyed(put.bars@, put.tempos@, put.softs@);
            lemma_remove_keys_keyed(sb, bar_keys(out.bars@));
            lemma_bulk_put_keyed(remove_keys(sb, bar_keys(out.bars@)), bar_recs(put.bars@));
            lemma_remove_keys_keyed(st, tempo_keys(out.tempos@));
            lemma_bulk_put_keyed(remove_keys(st, tempo_keys(out.tempos@)), tempo_recs(put.tempos@));
            lemma_remove_keys_keyed(sd, ctrl_keys(out.dumpers@));
            lemma_bulk_put_keyed(remove_keys(sd, ctrl_keys(out.dumpers@)), ctrl_recs(put.dumpers@));
            lemma_remove_keys_keyed(ss, ctrl_keys(out.softs@));
            lemma_bulk_put_keyed(remove_keys(ss, ctrl_keys(out.softs@)), ctrl_recs(put.softs@));
            lemma_keyed(self.bars());
            lemma_keyed(self.tempos());
            lemma_keyed(self.dumpers());
            lemma_keyed(self.softs());
        }
    }
}

impl ProjectCmd {
    /// Undoes this command on the project.
    pub fn undo(&self, proj: &mut ProjectImpl)
        requires
            old(proj).wf(),
        ensures
            final(proj).wf(),
            undone(*self, *old(proj), *final(proj)),
            undo_logged(*self, *old(proj), *final(proj)),
    {
        match self {
            ProjectCmd::SetRhythm(old_rhythm, _) => {
                proj.rhythm = *old_rhythm;
            },
            ProjectCmd::SetKey(old_key, _) => {
                proj.key = *old_key;
            },
            ProjectCmd::SetGrid(old_grid, _) => {
                proj.grid = *old_grid;
            },
            ProjectCmd::ModelChanged { added, removed, metadata } => {
                proj.swap_models(added, removed, *metadata);
            },
        }
    }

    /// Does (or redoes) this command on the project.
    pub fn redo(&self, proj: &mut ProjectImpl)
        requires
            old(proj).wf(),
        ensures
            final(proj).wf(),
            redone(*self, *old(proj), *final(proj)),
            redo_logged(*self, *old(proj), *final(proj)),
    {
        match self {
            ProjectCmd::SetRhythm(_, new_rhythm) => {
                proj.rhythm = *new_rhythm;
            },
            ProjectCmd::SetKey(_, new_key) => {
                proj.key = *new_key;
            },
            ProjectCmd::SetGrid(_, new_grid) => {
                proj.grid = *new_grid;
            },
            ProjectCmd::ModelChanged { added, removed, metadata } => {
                proj.swap_models(removed, added, *metadata);
            },
        }
    }
}

/// The metadata of an addition: the items are to be selected when asked.
pub open spec fn select_metadata(select: bool) -> ModelChangeMetadata {
    ModelChangeMetadata { need_select: if select { Some(true) } else { None }, dragged: false }
}

/// An option as a sequence of at most one value.
pub open spec fn opt_seq<T>(o: Option<T>) -> Seq<T> {
    match o {
        Some(v) => seq![v],
        None => Seq::empty(),
    }
}

/// The values of records.
pub open spec fn rec_values<T>(recs: Seq<(u32, T)>) -> Seq<T> {
    recs.map_values(|p: (u32, T)| p.1)
}

/// `bs` are the bars added after the bars of a project with these items to
/// reach the end of its items.
pub open spec fn fills(
    bs: Seq<Bar>,
    base: Rhythm,
    bars: Map<u32, Bar>,
    notes: Map<u32, Seq<Note>>,
    tempos: Map<u32, Tempo>,
    dumpers: Map<u32, CtrlChg>,
    softs: Map<u32, CtrlChg>,
) -> bool {
    &&& is_fill(bs, max_key(bars), fill_len_of(base, bars), items_end(notes, tempos, dumpers, softs))
    &&& (bs.len() > 0 ==> fill_len_of(base, bars) > 0)
}

/// Only the notes, the bars and the tempos of the project may have changed.
pub open spec fn keeps_settings(before: ProjectImpl, after: ProjectImpl) -> bool {
    &&& after.rhythm_spec() == before.rhythm_spec()
    &&& after.key_spec() == before.key_spec()
    &&& after.grid_spec() == before.grid_spec()
}

impl ProjectImpl {
    /// Sets the time signature at the start; gives back the command that does it.
    pub fn set_rhythm(&mut self, rhythm: Rhythm) -> (r: ProjectCmd)
        requires
            old(self).wf(),
        ensures
            final(self).wf(),
            r == ProjectCmd::SetRhythm(old(self).rhythm_spec(), rhythm),
            redone(r, *old(self), *final(self)),
            redo_logged(r, *old(self), *final(self)),
    {
        let cmd = ProjectCmd::SetRhythm(self.rhythm, rhythm);
        cmd.redo(self);
        cmd
    }

    /// Sets the key at the start; gives back the command that does it.
    pub fn set_key(&mut self, key: Key) -> (r: ProjectCmd)
        requires
            old(self).wf(),
        ensures
            final(self).wf(),
            r == ProjectCmd::SetKey(old(self).key_spec(), key),
            redone(r, *old(self), *final(self)),
            redo_logged(r, *old(self), *final(self)),
    {
        let cmd = ProjectCmd::SetKey(self.key, key);
        cmd.redo(self);
        cmd
    }

    /// Sets the grid; gives back the command that does it.
    pub fn set_grid(&mut self, grid: Grid) -> (r: ProjectCmd)
        requires
            old(self).wf(),
        ensures
            final(self).wf(),
            r == ProjectCmd::SetGrid(old(self).grid_spec(), grid),
            redone(r, *old(self), *final(self)),
            redo_logged(r, *old(self), *final(self)),
    {
        let cmd = ProjectCmd::SetGrid(self.grid, grid);
        cmd.redo(self);
        cmd
    }

    /// Adds a note under the tick at which it sounds, then bars to reach
    /// where the items end; gives back the command that did it.
    pub fn add_note(&mut self, note: Note, select: bool) -> (r: ProjectCmd)
        requires
            old(self).wf(),
            fill_ok(old(self).rhythm_spec(), entries_map(old(self).bars()), bag_add(old(self).notes(), note_start_tick(note), note),
                entries_map(old(self).tempos()), entries_map(old(self).dumpers()), entries_map(old(self).softs())),
        ensures
            final(self).wf(),
            note_added(*old(self), note, select, *final(self), r),
            final(self).note_log() == fired(old(self).note_log(), (BagLogEvent::Added { added: note, metadata: select_metadata(select) })),
            fill_logged(*old(self), *final(self), added_bars(r)),
            final(self).tempo_log() == old(self).tempo_log(),
            final(self).dumper_log() == old(self).dumper_log(),
            final(self).soft_log() == old(self).soft_log(),
    {
        let mut metadata = ModelChangeMetadata::new();
        if select {
            metadata.need_select = Some(true);
        }
        let tick = note.start_tick();
        let added_note = copy_note(&note);
        note_bag_add(&mut self.note_repo, tick, Rc::new(note), metadata);
        let bars = self.replenish_bars();
        let mut notes: Vec<Note> = Vec::new();
        notes.push(added_note);
        let added = Models { notes, ..Models::empty().with_bars(bars) };
        ProjectCmd::ModelChanged { added, removed: Models::empty(), metadata }
    }

    /// Puts a bar under its start tick; gives back the command that did it.
    pub fn add_bar(&mut self, bar: Bar, select: bool) -> (r: ProjectCmd)
        requires
            old(self).wf(),
        ensures
            final(self).wf(),
            bar_added(*old(self), bar, select, *final(self), r),
            final(self).bar_log() == puts_logged(old(self).bar_log(), entries_map(old(self).bars()), bar_recs(seq![bar]), select_metadata(select)),
            logs_but_bars_kept(*old(self), *final(self)),
    {
        let mut metadata = ModelChangeMetadata::new();
        if select {
            metadata.need_select = Some(true);
        }
        let origin = self.add_bar_internal(bar, select);
        let mut added_bars: Vec<Bar> = Vec::new();
        added_bars.push(bar);
        ProjectCmd::ModelChanged {
            added: Models::empty().with_bars(added_bars),
            removed: Models::empty().with_bars(origin),
            metadata,
        }
    }
}

impl ProjectImpl {
    /// Puts a tempo change under its tick, then adds bars to reach where the
    /// items end; gives back the command that did it.
    pub fn add_tempo(&mut self, tempo: Tempo, select: bool) -> (r: ProjectCmd)
        requires
            old(self).wf(),
            fill_ok(old(self).rhythm_spec(), entries_map(old(self).bars()), old(self).notes(),
                entries_map(old(self).tempos()).insert(tempo.start_tick, tempo), entries_map(old(self).dumpers()), entries_map(old(self).softs())),
        ensures
            final(self).wf(),
            tempo_added(*old(self), tempo, select, *final(self), r),
            final(self).tempo_log() == puts_logged(old(self).tempo_log(), entries_map(old(self).tempos()), tempo_recs(seq![tempo]), select_metadata(select)),
            fill_logged(*old(self), *final(self), added_bars(r)),
            final(self).note_log() == old(self).note_log(),
            final(self).dumper_log() == old(self).dumper_log(),
            final(self).soft_log() == old(self).soft_log(),
    {
        let mut metadata = ModelChangeMetadata::new();
        if select {
            metadata.need_select = Some(true);
        }
        proof { lemma_keyed(self.tempos()); }
        let origin = tempo_store_add(&mut self.tempo_repo, tempo.start_tick, tempo, metadata);
        proof {
            lemma_puts_logged_one(old(self).tempo_log(), entries_map(old(self).tempos()), (tempo.start_tick, tempo), metadata);
            assert(tempo_recs(seq![tempo]) =~= seq![(tempo.start_tick, tempo)]);
        }
        proof { lemma_keyed(self.tempos()); }
        let mut removed_items: Vec<Tempo> = Vec::new();
        match origin {
            Some(o) => removed_items.push(o),
            None => {},
        }
        let bars = self.replenish_bars();
        let mut added_items: Vec<Tempo> = Vec::new();
        added_items.push(tempo);
        ProjectCmd::ModelChanged {
            added: Models::empty().with_bars(bars).with_tempos(added_items),
            removed: Models::empty().with_tempos(removed_items),
            metadata,
        }
    }

    /// Puts a dumper pedal change under its tick, then adds bars to reach where the
    /// items end; gives back the command that did it.
    pub fn add_dumper(&mut self, dumper: CtrlChg, select: bool) -> (r: ProjectCmd)
        requires
            old(self).wf(),
            fill_ok(old(self).rhythm_spec(), entries_map(old(self).bars()), old(self).notes(),
                entries_map(old(self).tempos()), entries_map(old(self).dumpers()).insert(dumper.start_tick, dumper), entries_map(old(self).softs())),
        ensures
            final(self).wf(),
            dumper_added(*old(self), dumper, select, *final(self), r),
            final(self).dumper_log() == puts_logged(old(self).dumper_log(), entries_map(old(self).dumpers()), ctrl_recs(seq![dumper]), select_metadata(select)),
            fill_logged(*old(self), *final(self), added_bars(r)),
            final(self).note_log() == old(self).note_log(),
            final(self).tempo_log() == old(self).tempo_log(),
            final(self).soft_log() == old(self).soft_log(),
    {
        let mut metadata = ModelChangeMetadata::new();
        if select {
            metadata.need_select = Some(true);
        }
        proof { lemma_keyed(self.dumpers()); }
        let origin = ctrl_store_add(&mut self.dumper_repo, dumper.start_tick, dumper, metadata);
        proof {
            lemma_puts_logged_one(old(self).dumper_log(), entries_map(old(self).dumpers()), (dumper.start_tick, dumper), metadata);
            assert(ctrl_recs(seq![dumper]) =~= seq![(dumper.start_tick, dumper)]);
        }
        proof { lemma_keyed(self.dumpers()); }
        let mut removed_items: Vec<CtrlChg> = Vec::new();
        match origin {
            Some(o) => removed_items.push(o),
            None => {},
        }
        let bars = self.replenish_bars();
        let mut added_items: Vec<CtrlChg> = Vec::new();
        added_items.push(dumper);
        ProjectCmd::ModelChanged {
            added: Models::empty().with_bars(bars).with_dumpers(added_items),
            removed: Models::empty().with_dumpers(removed_items),
            metadata,
        }
    }

    /// Puts a soft pedal change under its tick, then adds bars to reach where the
    /// items end; gives back the command that did it.
    pub fn add_soft(&mut self, soft: CtrlChg, select: bool) -> (r: ProjectCmd)
        requires
            old(self).wf(),
            fill_ok(old(self).rhythm_spec(), entries_map(old(self).bars()), old(self).notes(),
                entries_map(old(self).tempos()), entries_map(old(self).dumpers()), entries_map(old(self).softs()).insert(soft.start_tick, soft)),
        ensures
            final(self).wf(),
            soft_added(*old(self), soft, select, *final(self), r),
            final(self).soft_log() == puts_logged(old(self).soft_log(), entries_map(old(self).softs()), ctrl_recs(seq![soft]), select_metadata(select)),
            fill_logged(*old(self), *final(self), added_bars(r)),
            final(self).note_log() == old(self).note_log(),
            final(self).tempo_log() == old(self).tempo_log(),
            final(self).dumper_log() == old(self).dumper_log(),
    {
        let mut metadata = ModelChangeMetadata::new();
        if select {
            metadata.need_select = Some(true);
        }
        proof { lemma_keyed(self.softs()); }
        let origin = ctrl_store_add(&mut self.soft_repo, soft.start_tick, soft, metadata);
        proof {
            lemma_puts_logged_one(old(self).soft_log(), entries_map(old(self).softs()), (soft.start_tick, soft), metadata);
            assert(ctrl_recs(seq![soft]) =~= seq![(soft.start_tick, soft)]);
        }
        proof { lemma_keyed(self.softs()); }
        let mut removed_items: Vec<CtrlChg> = Vec::new();
        match origin {
            Some(o) => removed_items.push(o),
            None => {},
        }
        let bars = self.replenish_bars();
        let mut added_items: Vec<CtrlChg> = Vec::new();
        added_items.push(soft);
        ProjectCmd::ModelChanged {
            added: Models::empty().with_bars(bars).with_softs(added_items),
            removed: Models::empty().with_softs(removed_items),
            metadata,
        }
    }

    /// Removes the items (notes from under the ticks at which they sound,
    /// the others by tick); gives back the command that did it.
    pub fn bulk_remove(&mut self, to_remove: Models, metadata: ModelChangeMetadata) -> (r: ProjectCmd)
        requires
            old(self).wf(),
        ensures
            final(self).wf(),
            redone(r, *old(self), *final(self)),
            redo_logged(r, *old(self), *final(self)),
            match r {
                ProjectCmd::ModelChanged { added, removed, metadata: m } => added.is_empty_spec() && removed == to_remove && m == metadata,
                _ => false,
            },
    {
        let cmd = ProjectCmd::ModelChanged { added: Models::empty(), removed: to_remove, metadata };
        cmd.redo(self);
        cmd
    }
}

/// A log after a bulk add of records into a map, as `bulk_add` logs it: the
/// records, with the entries they replace.
pub open spec fn bulk_logged<T>(log: Option<Seq<StoreLogEvent<T>>>, m: Map<u32, T>, recs: Seq<(u32, T)>, md: ModelChangeMetadata) -> Option<Seq<StoreLogEvent<T>>> {
    fired(log, (StoreLogEvent::BulkAddedRemoved { added: recs, removed: bulk_displaced(m, recs), metadata: md }))
}

/// A log after a change of a map, as `change` logs it: each `from` entry
/// that was there with its new entry, and the entries those replace.
pub open spec fn change_logged<T>(log: Option<Seq<StoreLogEvent<T>>>, m: Map<u32, T>, ft: Seq<(u32, (u32, T))>, md: ModelChangeMetadata) -> Option<Seq<StoreLogEvent<T>>> {
    fired(log, (StoreLogEvent::Changed {
        from_to: change_pairs(m, ft),
        removed: bulk_displaced(change_taken(m, ft).0, change_taken(m, ft).1),
        metadata: md,
    }))
}

/// The bars a command added.
pub open spec fn added_bars(r: ProjectCmd) -> Seq<Bar> {
    match r {
        ProjectCmd::ModelChanged { added, .. } => added.bars@,
        _ => Seq::empty(),
    }
}

/// The log of bars of `after` is that of `before` with the bars added to
/// reach where the items end, as plain bars, logged.
pub open spec fn fill_logged(before: ProjectImpl, after: ProjectImpl, bars: Seq<Bar>) -> bool {
    after.bar_log() == puts_logged(before.bar_log(), entries_map(before.bars()), bar_recs(bars), select_metadata(false))
}

/// `after` and `r` are what adding the note added under the tick at which it sounds to `before` gives.
pub open spec fn note_added(before: ProjectImpl, note: Note, select: bool, after: ProjectImpl, r: ProjectCmd) -> bool {
    &&& keeps_settings(before, after)
    &&& after.notes() == bag_add(before.notes(), note_start_tick(note), note)
    &&& after.tempos() == before.tempos()
    &&& after.dumpers() == before.dumpers()
    &&& after.softs() == before.softs()
    &&& match r {
        ProjectCmd::ModelChanged { added, removed, metadata } => {
            &&& metadata == select_metadata(select)
            &&& removed.is_empty_spec()
            &&& added.notes@ == seq![note]
            &&& added.tempos@.len() == 0 && added.dumpers@.len() == 0 && added.softs@.len() == 0
            &&& fills(added.bars@, before.rhythm_spec(), entries_map(before.bars()), after.notes(),
                entries_map(before.tempos()), entries_map(before.dumpers()), entries_map(before.softs()))
            &&& entries_map(after.bars()) == bars_put(entries_map(before.bars()), added.bars@)
        },
        _ => false
    }
}

/// `after` and `r` are what adding the bar put under its start tick to `before` gives.
pub open spec fn bar_added(before: ProjectImpl, bar: Bar, select: bool, after: ProjectImpl, r: ProjectCmd) -> bool {
    &&& keeps_settings(before, after)
    &&& entries_map(after.bars()) == entries_map(before.bars()).insert(bar.start_tick, bar)
    &&& after.notes() == before.notes()
    &&& after.tempos() == before.tempos()
    &&& after.dumpers() == before.dumpers()
    &&& after.softs() == before.softs()
    &&& match r {
        ProjectCmd::ModelChanged { added, removed, metadata } => {
            &&& metadata == select_metadata(select)
            &&& added.holds(Seq::empty(), seq![bar], Seq::empty(), Seq::empty(), Seq::empty())
            &&& removed.holds(Seq::empty(), opt_seq(value_at(entries_map(before.bars()), bar.start_tick)),
                Seq::empty(), Seq::empty(), Seq::empty())
        },
        _ => false
    }
}

/// `after` and `r` are what adding the tempo change put under its tick to `before` gives.
pub open spec fn tempo_added(before: ProjectImpl, tempo: Tempo, select: bool, after: ProjectImpl, r: ProjectCmd) -> bool {
    &&& keeps_settings(before, after)
    &&& after.notes() == before.notes()
    &&& entries_map(after.tempos()) == entries_map(before.tempos()).insert(tempo.start_tick, tempo)
    &&& after.dumpers() == before.dumpers()
    &&& after.softs() == before.softs()
    &&& match r {
        ProjectCmd::ModelChanged { added, removed, metadata } => {
            &&& metadata == select_metadata(select)
            &&& added.notes@.len() == 0
            &&& added.tempos@ == seq![tempo]
            &&& added.dumpers@.len() == 0 && added.softs@.len() == 0
            &&& fills(added.bars@, before.rhythm_spec(), entries_map(before.bars()), before.notes(),
                entries_map(before.tempos()).insert(tempo.start_tick, tempo), entries_map(before.dumpers()), entries_map(before.softs()))
            &&& entries_map(after.bars()) == bars_put(entries_map(before.bars()), added.bars@)
            &&& removed.holds(Seq::empty(), Seq::empty(), opt_seq(value_at(entries_map(before.tempos()), tempo.start_tick)), Seq::empty(), Seq::empty())
        },
        _ => false
    }
}

/// `after` and `r` are what adding the dumper pedal change put under its tick to `before` gives.
pub open spec fn dumper_added(before: ProjectImpl, dumper: CtrlChg, select: bool, after: ProjectImpl, r: ProjectCmd) -> bool {
    &&& keeps_settings(before, after)
    &&& after.notes() == before.notes()
    &&& after.tempos() == before.tempos()
    &&& entries_map(after.dumpers()) == entries_map(before.dumpers()).insert(dumper.start_tick, dumper)
    &&& after.softs() == before.softs()
    &&& match r {
        ProjectCmd::ModelChanged { added, removed, metadata } => {
            &&& metadata == select_metadata(select)
            &&& added.notes@.len() == 0
            &&& added.dumpers@ == seq![dumper]
            &&& added.tempos@.len() == 0 && added.softs@.len() == 0
            &&& fills(added.bars@, before.rhythm_spec(), entries_map(before.bars()), before.notes(),
                entries_map(before.tempos()), entries_map(before.dumpers()).insert(dumper.start_tick, dumper), entries_map(before.softs()))
            &&& entries_map(after.bars()) == bars_put(entries_map(before.bars()), added.bars@)
            &&& removed.holds(Seq::empty(), Seq::empty(), Seq::empty(), opt_seq(value_at(entries_map(before.dumpers()), dumper.start_tick)), Seq::empty())
        },
        _ => false
    }
}

/// `after` and `r` are what adding the soft pedal change put under its tick to `before` gives.
pub open spec fn soft_added(before: ProjectImpl, soft: CtrlChg, select: bool, after: ProjectImpl, r: ProjectCmd) -> bool {
    &&& keeps_settings(before, after)
    &&& after.notes() == before.notes()
    &&& after.tempos() == before.tempos()
    &&& after.dumpers() == before.dumpers()
    &&& entries_map(after.softs()) == entries_map(before.softs()).insert(soft.start_tick, soft)
    &&& match r {
        ProjectCmd::ModelChanged { added, removed, metadata } => {
            &&& metadata == select_metadata(select)
            &&& added.notes@.len() == 0
            &&& added.softs@ == seq![soft]
            &&& added.tempos@.len() == 0 && added.dumpers@.len() == 0
            &&& fills(added.bars@, before.rhythm_spec(), entries_map(before.bars()), before.notes(),
                entries_map(before.tempos()), entries_map(before.dumpers()), entries_map(before.softs()).insert(soft.start_tick, soft))
            &&& entries_map(after.bars()) == bars_put(entries_map(before.bars()), added.bars@)
            &&& removed.holds(Seq::empty(), Seq::empty(), Seq::empty(), Seq::empty(), opt_seq(value_at(entries_map(before.softs()), soft.start_tick)))
        },
        _ => false
    }
}

/// The notes of a bag after the notes are made into a tuplet: each taken
/// out from under the tick at which it sounds, then the tuplet's notes added.
pub open spec fn tuplized_bag(m: Map<u32, Seq<Note>>, notes: Seq<Rc<Note>>) -> Map<u32, Seq<Note>> {
    bag_bulk_add(bag_bulk_remove(m, note_recs(unwrapped(notes))).0, note_recs(tuplet_of(notes)))
}

/// `after` and `r` are what making the notes (more than one) a tuplet in
/// `before` gives.
pub open spec fn tuplized(before: ProjectImpl, notes: Seq<Rc<Note>>, after: ProjectImpl, r: Result<ProjectCmd, ProjectCmdErr>) -> bool {
    &&& after.notes() == tuplized_bag(before.notes(), notes)
    &&& match r {
        Ok(ProjectCmd::ModelChanged { added, removed, metadata }) => {
            &&& metadata == (ModelChangeMetadata { need_select: Some(true), dragged: false })
            &&& added.notes@ == tuplet_of(notes)
            &&& added.tempos@.len() == 0 && added.dumpers@.len() == 0 && added.softs@.len() == 0
            &&& fills(added.bars@, before.rhythm_spec(), entries_map(before.bars()), after.notes(),
                entries_map(before.tempos()), entries_map(before.dumpers()), entries_map(before.softs()))
            &&& entries_map(after.bars()) == bars_put(entries_map(before.bars()), added.bars@)
            &&& removed.holds(unwrapped(notes), Seq::empty(), Seq::empty(), Seq::empty(), Seq::empty())
        },
        _ => false,
    }
}

/// The notes as records under the ticks at which they sound, with their handles.
fn note_records(notes: &Vec<Rc<Note>>) -> (r: Vec<(u32, Rc<Note>)>)
    ensures
        unshared(r@) == note_recs(unwrapped(notes@)),
{
    let mut recs: Vec<(u32, Rc<Note>)> = Vec::with_capacity(notes.len());
    let mut i: usize = 0;
    while i < notes.len()
        invariant
            i <= notes@.len(),
            unshared(recs@) == note_recs(unwrapped(notes@.take(i as int))),
        decreases notes@.len() - i,
    {
        let n = &notes[i];
        let ghost before = recs@;
        recs.push((n.start_tick(), share_note(n)));
        proof {
            assert(unshared(recs@) =~= unshared(before).push((note_start_tick(*notes@[i as int]), *notes@[i as int])));
            assert(notes@.take(i + 1) =~= notes@.take(i as int).push(notes@[i as int]));
            assert(note_recs(unwrapped(notes@.take(i + 1))) =~= note_recs(unwrapped(notes@.take(i as int))).push(
                (note_start_tick(*notes@[i as int]), *notes@[i as int])));
        }
        i = i + 1;
    }
    proof { assert(notes@.take(notes@.len() as int) =~= notes@); }
    recs
}

/// Other handles to the same notes.
fn share_notes(notes: &Vec<Rc<Note>>) -> (r: Vec<Rc<Note>>)
    ensures
        r@ == notes@,
{
    let mut out: Vec<Rc<Note>> = Vec::with_capacity(notes.len());
    let mut i: usize = 0;
    while i < notes.len()
        invariant
            i <= notes@.len(),
            out@ == notes@.take(i as int),
        decreases notes@.len() - i,
    {
        out.push(share_note(&notes[i]));
        proof { assert(notes@.take(i + 1) =~= notes@.take(i as int).push(notes@[i as int])); }
        i = i + 1;
    }
    proof { assert(notes@.take(notes@.len() as int) =~= notes@); }
    out
}

impl ProjectImpl {
    /// Makes the notes into a tuplet (see `tuple::tuplize`): takes them out,
    /// adds the tuplet's notes, then adds bars to reach where the items end;
    /// gives back the command that did it. Fewer than two notes are no tuplet.
    pub fn tuplize(&mut self, notes: Vec<Rc<Note>>) -> (r: Result<ProjectCmd, ProjectCmdErr>)
        requires
            old(self).wf(),
            1 < notes@.len() ==> tuplize_ok(notes@),
            1 < notes@.len() ==> fill_ok(old(self).rhythm_spec(), entries_map(old(self).bars()), tuplized_bag(old(self).notes(), notes@),
                entries_map(old(self).tempos()), entries_map(old(self).dumpers()), entries_map(old(self).softs())),
        ensures
            final(self).wf(),
            keeps_settings(*old(self), *final(self)),
            final(self).tempos() == old(self).tempos(),
            final(self).dumpers() == old(self).dumpers(),
            final(self).softs() == old(self).softs(),
            notes@.len() <= 1 ==> {
                &&& r == Err::<ProjectCmd, ProjectCmdErr>(ProjectCmdErr::NoOp)
                &&& final(self).notes() == old(self).notes()
                &&& final(self).bars() == old(self).bars()
            },
            1 < notes@.len() ==> tuplized(*old(self), notes@, *final(self), r),
            notes@.len() <= 1 ==> logs_kept(*old(self), *final(self)),
            1 < notes@.len() ==> final(self).note_log() == fired(
                fired(old(self).note_log(), (BagLogEvent::BulkAddedRemoved {
                    added: Seq::empty(),
                    removed: bag_bulk_remove(old(self).notes(), note_recs(unwrapped(notes@))).1,
                    metadata: select_metadata(false),
                })),
                (BagLogEvent::BulkAddedRemoved { added: note_recs(tuplet_of(notes@)), removed: Seq::empty(), metadata: select_metadata(true) }),
            ),
            1 < notes@.len() ==> match r {
                Ok(c) => fill_logged(*old(self), *final(self), added_bars(c)),
                Err(_) => false,
            },
            final(self).tempo_log() == old(self).tempo_log(),
            final(self).dumper_log() == old(self).dumper_log(),
            final(self).soft_log() == old(self).soft_log(),
    {
        let metadata = ModelChangeMetadata::new().with_need_select(true);
        if 1 < notes.len() {
            let to_remove = note_records(&notes);
            let tupled = crate::tuple::tuplize(share_notes(&notes));
            note_bag_bulk_remove(&mut self.note_repo, &to_remove, ModelChangeMetadata::new());
            let to_add = note_records(&tupled);
            note_bag_bulk_add(&mut self.note_repo, to_add, metadata);
            proof {
                let gone = bag_bulk_remove(old(self).notes(), note_recs(unwrapped(notes@))).0;
                lemma_bag_bulk_remove_wf(old(self).notes(), note_recs(unwrapped(notes@)));
                lemma_note_recs_keyed(tuplet_of(notes@));
                lemma_bag_bulk_add_wf(gone, note_recs(tuplet_of(notes@)));
            }
            let bars = self.replenish_bars();
            Ok(ProjectCmd::ModelChanged {
                added: Models::empty().with_notes(&tupled).with_bars(bars),
                removed: Models::empty().with_notes(&notes),
                metadata,
            })
        } else {
            Err(ProjectCmdErr::NoOp)
        }
    }
}

/// A map changed: the `from` keys taken out, then the new entries of those
/// that were there put in.
pub open spec fn changed<T>(m: Map<u32, T>, ft: Seq<(u32, (u32, T))>) -> Map<u32, T> {
    bulk_put(change_taken(m, ft).0, change_taken(m, ft).1)
}

/// The entries that putting in the new entries of a change replaces.
pub open spec fn change_displaced<T>(m: Map<u32, T>, ft: Seq<(u32, (u32, T))>) -> Seq<(u32, T)> {
    bulk_displaced(change_taken(m, ft).0, change_taken(m, ft).1)
}

/// The items before of changes.
pub open spec fn befores<T>(ft: Seq<(T, T)>) -> Seq<T> {
    ft.map_values(|p: (T, T)| p.0)
}

/// The items after of changes.
pub open spec fn afters<T>(ft: Seq<(T, T)>) -> Seq<T> {
    ft.map_values(|p: (T, T)| p.1)
}

/// Changes of notes as changes of records under the ticks at which they sound.
pub open spec fn note_changes(ft: Seq<(Note, Note)>) -> Seq<((u32, Note), (u32, Note))> {
    ft.map_values(|p: (Note, Note)| ((note_start_tick(p.0), p.0), (note_start_tick(p.1), p.1)))
}

/// Changes of bars as changes of records under their start ticks.
pub open spec fn bar_changes(ft: Seq<(Bar, Bar)>) -> Seq<(u32, (u32, Bar))> {
    ft.map_values(|p: (Bar, Bar)| (p.0.start_tick, (p.1.start_tick, p.1)))
}

/// Changes of tempos as changes of records under their ticks.
pub open spec fn tempo_changes(ft: Seq<(Tempo, Tempo)>) -> Seq<(u32, (u32, Tempo))> {
    ft.map_values(|p: (Tempo, Tempo)| (p.0.start_tick, (p.1.start_tick, p.1)))
}

/// Changes of pedal changes as changes of records under their ticks.
pub open spec fn ctrl_changes(ft: Seq<(CtrlChg, CtrlChg)>) -> Seq<(u32, (u32, CtrlChg))> {
    ft.map_values(|p: (CtrlChg, CtrlChg)| (p.0.start_tick, (p.1.start_tick, p.1)))
}

/// A bag of notes changed: each `from` note taken out, then the new notes of
/// those that were there added.
pub open spec fn notes_changed(m: Map<u32, Seq<Note>>, ft: Seq<(Note, Note)>) -> Map<u32, Seq<Note>> {
    bag_bulk_add(bag_change_taken(m, note_changes(ft)).0, bag_change_taken(m, note_changes(ft)).1)
}

/// The values of records, in order.
fn values_of<T: Copy>(recs: Vec<(u32, T)>) -> (r: Vec<T>)
    ensures
        r@ == rec_values(recs@),
{
    let mut out: Vec<T> = Vec::with_capacity(recs.len());
    let mut i: usize = 0;
    while i < recs.len()
        invariant
            i <= recs@.len(),
            out@ == rec_values(recs@.take(i as int)),
        decreases recs@.len() - i,
    {
        out.push(recs[i].1);
        proof { assert(rec_values(recs@.take(i + 1)) =~= rec_values(recs@.take(i as int)).push(recs@[i as int].1)); }
        i = i + 1;
    }
    proof { assert(recs@.take(recs@.len() as int) =~= recs@); }
    out
}

/// Bars as records under their start ticks.
fn bar_records(bs: &Vec<Bar>) -> (r: Vec<(u32, Bar)>)
    ensures
        r@ == bar_recs(bs@),
{
    let mut out: Vec<(u32, Bar)> = Vec::with_capacity(bs.len());
    let mut i: usize = 0;
    while i < bs.len()
        invariant
            i <= bs@.len(),
            out@ == bar_recs(bs@.take(i as int)),
        decreases bs@.len() - i,
    {
        let b = bs[i];
        out.push((b.start_tick, b));
        proof { assert(bar_recs(bs@.take(i + 1)) =~= bar_recs(bs@.take(i as int)).push((b.start_tick, b))); }
        i = i + 1;
    }
    proof { assert(bs@.take(bs@.len() as int) =~= bs@); }
    out
}

/// Tempo changes as records under their ticks.
fn tempo_records(ts: &Vec<Tempo>) -> (r: Vec<(u32, Tempo)>)
    ensures
        r@ == tempo_recs(ts@),
{
    let mut out: Vec<(u32, Tempo)> = Vec::with_capacity(ts.len());
    let mut i: usize = 0;
    while i < ts.len()
        invariant
            i <= ts@.len(),
            out@ == tempo_recs(ts@.take(i as int)),
        decreases ts@.len() - i,
    {
        let t = ts[i];
        out.push((t.start_tick, t));
        proof { assert(tempo_recs(ts@.take(i + 1)) =~= tempo_recs(ts@.take(i as int)).push((t.start_tick, t))); }
        i = i + 1;
    }
    proof { assert(ts@.take(ts@.len() as int) =~= ts@); }
    out
}

/// Pedal changes as records under their ticks.
fn ctrl_records(cs: &Vec<CtrlChg>) -> (r: Vec<(u32, CtrlChg)>)
    ensures
        r@ == ctrl_recs(cs@),
{
    let mut out: Vec<(u32, CtrlChg)> = Vec::with_capacity(cs.len());
    let mut i: usize = 0;
    while i < cs.len()
        invariant
            i <= cs@.len(),
            out@ == ctrl_recs(cs@.take(i as int)),
        decreases cs@.len() - i,
    {
        let c = cs[i];
        out.push((c.start_tick, c));
        proof { assert(ctrl_recs(cs@.take(i + 1)) =~= ctrl_recs(cs@.take(i as int)).push((c.start_tick, c))); }
        i = i + 1;
    }
    proof { assert(cs@.take(cs@.len() as int) =~= cs@); }
    out
}

/// Notes as records under the ticks at which they sound, each behind a new handle.
fn shared_note_records(ns: &Vec<Note>) -> (r: Vec<(u32, Rc<Note>)>)
    ensures
        unshared(r@) == note_recs(ns@),
{
    let mut out: Vec<(u32, Rc<Note>)> = Vec::with_capacity(ns.len());
    let mut i: usize = 0;
    while i < ns.len()
        invariant
            i <= ns@.len(),
            unshared(out@) == note_recs(ns@.take(i as int)),
        decreases ns@.len() - i,
    {
        let n = &ns[i];
        let ghost before = out@;
        out.push((n.start_tick(), Rc::new(copy_note(n))));
        proof {
            assert(unshared(out@) =~= unshared(before).push((note_start_tick(ns@[i as int]), ns@[i as int])));
            assert(note_recs(ns@.take(i + 1)) =~= note_recs(ns@.take(i as int)).push((note_start_tick(ns@[i as int]), ns@[i as int])));
        }
        i = i + 1;
    }
    proof { assert(ns@.take(ns@.len() as int) =~= ns@); }
    out
}

/// `after` and `r` are what adding the items of `to_add` to `before` gives:
/// the items put in (each replacing any under its tick), and bars added
/// after the last to reach the end of the items.
pub open spec fn bulk_added(before: ProjectImpl, to_add: Models, metadata: ModelChangeMetadata, after: ProjectImpl, r: ProjectCmd) -> bool {
    &&& keeps_settings(before, after)
    &&& after.notes() == bag_bulk_add(before.notes(), note_recs(to_add.notes@))
    &&& entries_map(after.tempos()) == bulk_put(entries_map(before.tempos()), tempo_recs(to_add.tempos@))
    &&& entries_map(after.dumpers()) == bulk_put(entries_map(before.dumpers()), ctrl_recs(to_add.dumpers@))
    &&& entries_map(after.softs()) == bulk_put(entries_map(before.softs()), ctrl_recs(to_add.softs@))
    &&& match r {
        ProjectCmd::ModelChanged { added, removed, metadata: m } => {
            let n = to_add.bars@.len() as int;
            let bars = bulk_put(entries_map(before.bars()), bar_recs(to_add.bars@));
            &&& m == metadata
            &&& added.notes@ == to_add.notes@
            &&& added.tempos@ == to_add.tempos@
            &&& added.dumpers@ == to_add.dumpers@
            &&& added.softs@ == to_add.softs@
            &&& n <= added.bars@.len()
            &&& added.bars@.take(n) == to_add.bars@
            &&& fills(added.bars@.skip(n), before.rhythm_spec(), bars, after.notes(),
                entries_map(after.tempos()), entries_map(after.dumpers()), entries_map(after.softs()))
            &&& entries_map(after.bars()) == bars_put(bars, added.bars@.skip(n))
            &&& removed.holds(Seq::empty(),
                rec_values(bulk_displaced(entries_map(before.bars()), bar_recs(to_add.bars@))),
                rec_values(bulk_displaced(entries_map(before.tempos()), tempo_recs(to_add.tempos@))),
                rec_values(bulk_displaced(entries_map(before.dumpers()), ctrl_recs(to_add.dumpers@))),
                rec_values(bulk_displaced(entries_map(before.softs()), ctrl_recs(to_add.softs@))))
        },
        _ => false,
    }
}

impl ProjectImpl {
    /// Adds the items (notes under the ticks at which they sound, the others
    /// by tick, replacing what is there), then bars to reach where the items
    /// end; gives back the command that did it, with the bars added after
    /// the bars given and the items replaced as removed.
    pub fn bulk_add(&mut self, to_add: Models, metadata: ModelChangeMetadata) -> (r: ProjectCmd)
        requires
            old(self).wf(),
            fill_ok(old(self).rhythm_spec(), bulk_put(entries_map(old(self).bars()), bar_recs(to_add.bars@)),
                bag_bulk_add(old(self).notes(), note_recs(to_add.notes@)),
                bulk_put(entries_map(old(self).tempos()), tempo_recs(to_add.tempos@)),
                bulk_put(entries_map(old(self).dumpers()), ctrl_recs(to_add.dumpers@)),
                bulk_put(entries_map(old(self).softs()), ctrl_recs(to_add.softs@))),
        ensures
            final(self).wf(),
            bulk_added(*old(self), to_add, metadata, *final(self), r),
            final(self).note_log() == fired(old(self).note_log(), (BagLogEvent::BulkAddedRemoved {
                added: note_recs(to_add.notes@),
                removed: Seq::empty(),
                metadata,
            })),
            final(self).bar_log() == puts_logged(
                bulk_logged(old(self).bar_log(), entries_map(old(self).bars()), bar_recs(to_add.bars@), metadata),
                bulk_put(entries_map(old(self).bars()), bar_recs(to_add.bars@)),
                bar_recs(added_bars(r).skip(to_add.bars@.len() as int)),
                select_metadata(false),
            ),
            final(self).tempo_log() == bulk_logged(old(self).tempo_log(), entries_map(old(self).tempos()), tempo_recs(to_add.tempos@), metadata),
            final(self).dumper_log() == bulk_logged(old(self).dumper_log(), entries_map(old(self).dumpers()), ctrl_recs(to_add.dumpers@), metadata),
            final(self).soft_log() == bulk_logged(old(self).soft_log(), entries_map(old(self).softs()), ctrl_recs(to_add.softs@), metadata),
    {
        let mut to_add = to_add;
        let mut removed = Models::empty();
        proof {
            lemma_keyed(self.bars());
            lemma_keyed(self.tempos());
            lemma_keyed(self.dumpers());
            lemma_keyed(self.softs());
        }
        let ghost sb = entries_map(self.bars());
        let ghost st = entries_map(self.tempos());
        let ghost sd = entries_map(self.dumpers());
        let ghost ss = entries_map(self.softs());
        let notes = shared_note_records(&to_add.notes);
        note_bag_bulk_add(&mut self.note_repo, notes, metadata);
        let recs = bar_records(&to_add.bars);
        removed.bars = values_of(bar_store_bulk_add(&mut self.bar_repo, recs, metadata));
        let recs = tempo_records(&to_add.tempos);
        removed.tempos = values_of(tempo_store_bulk_add(&mut self.tempo_repo, recs, metadata));
        let recs = ctrl_records(&to_add.dumpers);
        removed.dumpers = values_of(ctrl_store_bulk_add(&mut self.dumper_repo, recs, metadata));
        let recs = ctrl_records(&to_add.softs);
        removed.softs = values_of(ctrl_store_bulk_add(&mut self.soft_repo, recs, metadata));
        proof {
            lemma_note_recs_keyed(to_add.notes@);
            lemma_bag_bulk_add_wf(old(self).notes(), note_recs(to_add.notes@));
            lemma_recs_keyed(to_add.bars@, to_add.tempos@, to_add.dumpers@);
            lemma_recs_keyed(to_add.bars@, to_add.tempos@, to_add.softs@);
            lemma_bulk_put_keyed(sb, bar_recs(to_add.bars@));
            lemma_bulk_put_keyed(st, tempo_recs(to_add.tempos@));
            lemma_bulk_put_keyed(sd, ctrl_recs(to_add.dumpers@));
            lemma_bulk_put_keyed(ss, ctrl_recs(to_add.softs@));
            lemma_keyed(self.bars());
            lemma_keyed(self.tempos());
            lemma_keyed(self.dumpers());
            lemma_keyed(self.softs());
        }
        let ghost given = to_add.bars@;
        let mut bars = self.replenish_bars();
        let ghost filled = bars@;
        to_add.bars.append(&mut bars);
        proof {
            assert(to_add.bars@.take(given.len() as int) =~= given);
            assert(to_add.bars@.skip(given.len() as int) =~= filled);
        }
        ProjectCmd::ModelChanged { added: to_add, removed, metadata }
    }
}

/// `after` and `r` are what the changes `from_to` make of `before`: each
/// `from` item that is there taken out and its `to` put in (each replacing
/// any under its tick), and bars added after the last to reach the end of
/// the items.
pub open spec fn changes_done(before: ProjectImpl, from_to: ModelChanges, metadata: ModelChangeMetadata, after: ProjectImpl, r: ProjectCmd) -> bool {
    &&& keeps_settings(before, after)
    &&& after.notes() == notes_changed(before.notes(), from_to.notes@)
    &&& entries_map(after.tempos()) == changed(entries_map(before.tempos()), tempo_changes(from_to.tempos@))
    &&& entries_map(after.dumpers()) == changed(entries_map(before.dumpers()), ctrl_changes(from_to.dumpers@))
    &&& entries_map(after.softs()) == changed(entries_map(before.softs()), ctrl_changes(from_to.softs@))
    &&& match r {
        ProjectCmd::ModelChanged { added, removed, metadata: m } => {
            let n = from_to.bars@.len() as int;
            let bars = changed(entries_map(before.bars()), bar_changes(from_to.bars@));
            &&& m == metadata
            &&& added.notes@ == afters(from_to.notes@)
            &&& added.tempos@ == afters(from_to.tempos@)
            &&& added.dumpers@ == afters(from_to.dumpers@)
            &&& added.softs@ == afters(from_to.softs@)
            &&& n <= added.bars@.len()
            &&& added.bars@.take(n) == afters(from_to.bars@)
            &&& fills(added.bars@.skip(n), before.rhythm_spec(), bars, after.notes(),
                entries_map(after.tempos()), entries_map(after.dumpers()), entries_map(after.softs()))
            &&& entries_map(after.bars()) == bars_put(bars, added.bars@.skip(n))
            &&& removed.holds(befores(from_to.notes@),
                befores(from_to.bars@) + rec_values(change_displaced(entries_map(before.bars()), bar_changes(from_to.bars@))),
                befores(from_to.tempos@) + rec_values(change_displaced(entries_map(before.tempos()), tempo_changes(from_to.tempos@))),
                befores(from_to.dumpers@) + rec_values(change_displaced(entries_map(before.dumpers()), ctrl_changes(from_to.dumpers@))),
                befores(from_to.softs@) + rec_values(change_displaced(entries_map(before.softs()), ctrl_changes(from_to.softs@))))
        },
        _ => false,
    }
}

impl ProjectImpl {
    /// Changes items: each item before is taken out (notes from under the
    /// tick at which they sound, the others by tick) and, where it was
    /// there, the item after put in, replacing what is there; then bars are
    /// added to reach where the items end. Gives back the command that did
    /// it: the items after (and the bars added) as added, the items before
    /// (and the items replaced) as removed.
    #[verifier::rlimit(40)]
    pub fn change(&mut self, from_to: ModelChanges, metadata: ModelChangeMetadata) -> (r: ProjectCmd)
        requires
            old(self).wf(),
            fill_ok(old(self).rhythm_spec(), changed(entries_map(old(self).bars()), bar_changes(from_to.bars@)),
                notes_changed(old(self).notes(), from_to.notes@),
                changed(entries_map(old(self).tempos()), tempo_changes(from_to.tempos@)),
                changed(entries_map(old(self).dumpers()), ctrl_changes(from_to.dumpers@)),
                changed(entries_map(old(self).softs()), ctrl_changes(from_to.softs@))),
        ensures
            final(self).wf(),
            changes_done(*old(self), from_to, metadata, *final(self), r),
            final(self).note_log() == fired(old(self).note_log(), (BagLogEvent::Changed {
                from_to: bag_change_pairs(old(self).notes(), note_changes(from_to.notes@)),
                removed: Seq::empty(),
                metadata,
            })),
            final(self).bar_log() == puts_logged(
                change_logged(old(self).bar_log(), entries_map(old(self).bars()), bar_changes(from_to.bars@), metadata),
                changed(entries_map(old(self).bars()), bar_changes(from_to.bars@)),
                bar_recs(added_bars(r).skip(from_to.bars@.len() as int)),
                select_metadata(false),
            ),
            final(self).tempo_log() == change_logged(old(self).tempo_log(), entries_map(old(self).tempos()), tempo_changes(from_to.tempos@), metadata),
            final(self).dumper_log() == change_logged(old(self).dumper_log(), entries_map(old(self).dumpers()), ctrl_changes(from_to.dumpers@), metadata),
            final(self).soft_log() == change_logged(old(self).soft_log(), entries_map(old(self).softs()), ctrl_changes(from_to.softs@), metadata),
    {
        let mut added_notes: Vec<Note> = Vec::with_capacity(from_to.notes.len());
        let mut removed_notes: Vec<Note> = Vec::with_capacity(from_to.notes.len());
        let mut added_bars: Vec<Bar> = Vec::with_capacity(from_to.bars.len());
        let mut removed_bars: Vec<Bar> = Vec::with_capacity(from_to.bars.len());
        let mut added_tempos: Vec<Tempo> = Vec::with_capacity(from_to.tempos.len());
        let mut removed_tempos: Vec<Tempo> = Vec::with_capacity(from_to.tempos.len());
        let mut added_dumpers: Vec<CtrlChg> = Vec::with_capacity(from_to.dumpers.len());
        let mut removed_dumpers: Vec<CtrlChg> = Vec::with_capacity(from_to.dumpers.len());
        let mut added_softs: Vec<CtrlChg> = Vec::with_capacity(from_to.softs.len());
        let mut removed_softs: Vec<CtrlChg> = Vec::with_capacity(from_to.softs.len());
        proof {
            lemma_keyed(self.bars());
            lemma_keyed(self.tempos());
            lemma_keyed(self.dumpers());
            lemma_keyed(self.softs());
        }
        let ghost sb = entries_map(self.bars());
        let ghost st = entries_map(self.tempos());
        let ghost sd = entries_map(self.dumpers());
        let ghost ss = entries_map(self.softs());

        let mut note_change: Vec<((u32, Rc<Note>), (u32, Rc<Note>))> = Vec::with_capacity(from_to.notes.len());
        let mut i: usize = 0;
        while i < from_to.notes.len()
            invariant
                i <= from_to.notes@.len(),
                unshared_changes(note_change@) == note_changes(from_to.notes@.take(i as int)),
                added_notes@ == afters(from_to.notes@.take(i as int)),
                removed_notes@ == befores(from_to.notes@.take(i as int)),
            decreases from_to.notes@.len() - i,
        {
            let p = &from_to.notes[i];
            let ghost before = note_change@;
            note_change.push(((p.0.start_tick(), Rc::new(copy_note(&p.0))), (p.1.start_tick(), Rc::new(copy_note(&p.1)))));
            added_notes.push(copy_note(&p.1));
            removed_notes.push(copy_note(&p.0));
            proof {
                let q = from_to.notes@[i as int];
                assert(from_to.notes@.take(i + 1) =~= from_to.notes@.take(i as int).push(q));
                assert(unshared_changes(note_change@) =~= unshared_changes(before).push(((note_start_tick(q.0), q.0), (note_start_tick(q.1), q.1))));
                assert(note_changes(from_to.notes@.take(i + 1)) =~= note_changes(from_to.notes@.take(i as int)).push(
                    ((note_start_tick(q.0), q.0), (note_start_tick(q.1), q.1))));
                assert(afters(from_to.notes@.take(i + 1)) =~= afters(from_to.notes@.take(i as int)).push(q.1));
                assert(befores(from_to.notes@.take(i + 1)) =~= befores(from_to.notes@.take(i as int)).push(q.0));
            }
            i = i + 1;
        }
        proof { assert(from_to.notes@.take(from_to.notes@.len() as int) =~= from_to.notes@); }
        note_bag_change(&mut self.note_repo, &note_change, metadata);

        let mut bar_change: Vec<(u32, (u32, Bar))> = Vec::with_capacity(from_to.bars.len());
        let mut i: usize = 0;
        while i < from_to.bars.len()
            invariant
                i <= from_to.bars@.len(),
                bar_change@ == bar_changes(from_to.bars@.take(i as int)),
                added_bars@ == afters(from_to.bars@.take(i as int)),
                removed_bars@ == befores(from_to.bars@.take(i as int)),
            decreases from_to.bars@.len() - i,
        {
            let (from, to) = from_to.bars[i];
            bar_change.push((from.start_tick, (to.start_tick, to)));
            added_bars.push(to);
            removed_bars.push(from);
            proof {
                let q = from_to.bars@[i as int];
                assert(from_to.bars@.take(i + 1) =~= from_to.bars@.take(i as int).push(q));
                assert(bar_changes(from_to.bars@.take(i + 1)) =~= bar_changes(from_to.bars@.take(i as int)).push((q.0.start_tick, (q.1.start_tick, q.1))));
                assert(afters(from_to.bars@.take(i + 1)) =~= afters(from_to.bars@.take(i as int)).push(q.1));
                assert(befores(from_to.bars@.take(i + 1)) =~= befores(from_to.bars@.take(i as int)).push(q.0));
            }
            i = i + 1;
        }
        proof { assert(from_to.bars@.take(from_to.bars@.len() as int) =~= from_to.bars@); }
        let mut displaced = values_of(bar_store_change(&mut self.bar_repo, &bar_change, metadata));
        removed_bars.append(&mut displaced);

        let mut tempo_change: Vec<(u32, (u32, Tempo))> = Vec::with_capacity(from_to.tempos.len());
        let mut i: usize = 0;
        while i < from_to.tempos.len()
            invariant
                i <= from_to.tempos@.len(),
                tempo_change@ == tempo_changes(from_to.tempos@.take(i as int)),
                added_tempos@ == afters(from_to.tempos@.take(i as int)),
                removed_tempos@ == befores(from_to.tempos@.take(i as int)),
            decreases from_to.tempos@.len() - i,
        {
            let (from, to) = from_to.tempos[i];
            tempo_change.push((from.start_tick, (to.start_tick, to)));
            added_tempos.push(to);
            removed_tempos.push(from);
            proof {
                let q = from_to.tempos@[i as int];
                assert(from_to.tempos@.take(i + 1) =~= from_to.tempos@.take(i as int).push(q));
                assert(tempo_changes(from_to.tempos@.take(i + 1)) =~= tempo_changes(from_to.tempos@.take(i as int)).push((q.0.start_tick, (q.1.start_tick, q.1))));
                assert(afters(from_to.tempos@.take(i + 1)) =~= afters(from_to.tempos@.take(i as int)).push(q.1));
                assert(befores(from_to.tempos@.take(i + 1)) =~= befores(from_to.tempos@.take(i as int)).push(q.0));
            }
            i = i + 1;
        }
        proof { assert(from_to.tempos@.take(from_to.tempos@.len() as int) =~= from_to.tempos@); }
        let mut displaced = values_of(tempo_store_change(&mut self.tempo_repo, &tempo_change, metadata));
        removed_tempos.append(&mut displaced);

        let mut dumper_change: Vec<(u32, (u32, CtrlChg))> = Vec::with_capacity(from_to.dumpers.len());
        let mut i: usize = 0;
        while i < from_to.dumpers.len()
            invariant
                i <= from_to.dumpers@.len(),
                dumper_change@ == ctrl_changes(from_to.dumpers@.take(i as int)),
                added_dumpers@ == afters(from_to.dumpers@.take(i as int)),
                removed_dumpers@ == befores(from_to.dumpers@.take(i as int)),
            decreases from_to.dumpers@.len() - i,
        {
            let (from, to) = from_to.dumpers[i];
            dumper_change.push((from.start_tick, (to.start_tick, to)));
            added_dumpers.push(to);
            removed_dumpers.push(from);
            proof {
                let q = from_to.dumpers@[i as int];
                assert(from_to.dumpers@.take(i + 1) =~= from_to.dumpers@.take(i as int).push(q));
                assert(ctrl_changes(from_to.dumpers@.take(i + 1)) =~= ctrl_changes(from_to.dumpers@.take(i as int)).push((q.0.start_tick, (q.1.start_tick, q.1))));
                assert(afters(from_to.dumpers@.take(i + 1)) =~= afters(from_to.dumpers@.take(i as int)).push(q.1));
                assert(befores(from_to.dumpers@.take(i + 1)) =~= befores(from_to.dumpers@.take(i as int)).push(q.0));
            }
            i = i + 1;
        }
        proof { assert(from_to.dumpers@.take(from_to.dumpers@.len() as int) =~= from_to.dumpers@); }
        let mut displaced = values_of(ctrl_store_change(&mut self.dumper_repo, &dumper_change, metadata));
        removed_dumpers.append(&mut displaced);

        let mut soft_change: Vec<(u32, (u32, CtrlChg))> = Vec::with_capacity(from_to.softs.len());
        let mut i: usize = 0;
        while i < from_to.softs.len()
            invariant
                i <= from_to.softs@.len(),
                soft_change@ == ctrl_changes(from_to.softs@.take(i as int)),
                added_softs@ == afters(from_to.softs@.take(i as int)),
                removed_softs@ == befores(from_to.softs@.take(i as int)),
            decreases from_to.softs@.len() - i,
        {
            let (from, to) = from_to.softs[i];
            soft_change.push((from.start_tick, (to.start_tick, to)));
            added_softs.push(to);
            removed_softs.push(from);
            proof {
                let q = from_to.softs@[i as int];
                assert(from_to.softs@.take(i + 1) =~= from_to.softs@.take(i as int).push(q));
                assert(ctrl_changes(from_to.softs@.take(i + 1)) =~= ctrl_changes(from_to.softs@.take(i as int)).push((q.0.start_tick, (q.1.start_tick, q.1))));
                assert(afters(from_to.softs@.take(i + 1)) =~= afters(from_to.softs@.take(i as int)).push(q.1));
                assert(befores(from_to.softs@.take(i + 1)) =~= befores(from_to.softs@.take(i as int)).push(q.0));
            }
            i = i + 1;
        }
        proof { assert(from_to.softs@.take(from_to.softs@.len() as int) =~= from_to.softs@); }
        let mut displaced = values_of(ctrl_store_change(&mut self.soft_repo, &soft_change, metadata));
        removed_softs.append(&mut displaced);

        proof {
            let fb = bar_changes(from_to.bars@);
            let ft = tempo_changes(from_to.tempos@);
            let fd = ctrl_changes(from_to.dumpers@);
            let fs = ctrl_changes(from_to.softs@);
            let nc = note_changes(from_to.notes@);
            assert(change_tos(nc) =~= note_recs(afters(from_to.notes@)));
            lemma_note_recs_keyed(afters(from_to.notes@));
            lemma_bag_change_taken_wf(old(self).notes(), nc);
            lemma_bag_bulk_add_wf(bag_change_taken(old(self).notes(), nc).0, bag_change_taken(old(self).notes(), nc).1);
            assert forall|i: int| 0 <= i < fb.len() implies (#[trigger] fb[i]).1.0 == fb[i].1.1.start_tick_spec() by {}
            assert forall|i: int| 0 <= i < ft.len() implies (#[trigger] ft[i]).1.0 == ft[i].1.1.start_tick_spec() by {}
            assert forall|i: int| 0 <= i < fd.len() implies (#[trigger] fd[i]).1.0 == fd[i].1.1.start_tick_spec() by {}
            assert forall|i: int| 0 <= i < fs.len() implies (#[trigger] fs[i]).1.0 == fs[i].1.1.start_tick_spec() by {}
            lemma_change_taken_keyed(sb, fb);
            lemma_bulk_put_keyed(change_taken(sb, fb).0, change_taken(sb, fb).1);
            lemma_change_taken_keyed(st, ft);
            lemma_bulk_put_keyed(change_taken(st, ft).0, change_taken(st, ft).1);
            lemma_change_taken_keyed(sd, fd);
            lemma_bulk_put_keyed(change_taken(sd, fd).0, change_taken(sd, fd).1);
            lemma_change_taken_keyed(ss, fs);
            lemma_bulk_put_keyed(change_taken(ss, fs).0, change_taken(ss, fs).1);
            lemma_keyed(self.bars());
            lemma_keyed(self.tempos());
            lemma_keyed(self.dumpers());
            lemma_keyed(self.softs());
        }
        let ghost given = added_bars@;
        let mut bars = self.replenish_bars();
        let ghost filled = bars@;
        added_bars.append(&mut bars);
        proof {
            assert(added_bars@.take(given.len() as int) =~= given);
            assert(added_bars@.skip(given.len() as int) =~= filled);
        }
        let added = Models { notes: added_notes, bars: added_bars, tempos: added_tempos, dumpers: added_dumpers, softs: added_softs };
        let removed = Models {
            notes: removed_notes,
            bars: removed_bars,
            tempos: removed_tempos,
            dumpers: removed_dumpers,
            softs: removed_softs,
        };
        ProjectCmd::ModelChanged { added, removed, metadata }
    }

    /// Forgets the events the stores logged.
    pub fn clear_model_events(&mut self)
        requires
            old(self).wf(),
        ensures
            final(self).wf(),
            settings_set(*old(self), *final(self), old(self).rhythm_spec(), old(self).key_spec(), old(self).grid_spec()),
            final(self).events_logged() == 0,
            final(self).note_log() == log_cleared(old(self).note_log()),
            final(self).bar_log() == log_cleared(old(self).bar_log()),
            final(self).tempo_log() == log_cleared(old(self).tempo_log()),
            final(self).dumper_log() == log_cleared(old(self).dumper_log()),
            final(self).soft_log() == log_cleared(old(self).soft_log()),
    {
        note_bag_clear_events(&mut self.note_repo);
        bar_store_clear_events(&mut self.bar_repo);
        tempo_store_clear_events(&mut self.tempo_repo);
        ctrl_store_clear_events(&mut self.dumper_repo);
        ctrl_store_clear_events(&mut self.soft_repo);
    }
}


/// A project as it is saved: its time signature, key and grid at the start,
/// and its items.
#[derive(Clone, PartialEq, Debug)]
pub struct ExportedProject {
    pub rhythm: Rhythm,
    pub key: Key,
    pub grid: Grid,
    pub models: Models,
}

/// `q` is the project read from the saved `e`: its settings, and its items
/// put into new stores, notes under the ticks at which they sound and the
/// others by tick, one after the other.
pub open spec fn imported_from(e: ExportedProject, q: ProjectImpl) -> bool {
    &&& q.rhythm_spec() == e.rhythm
    &&& q.key_spec() == e.key
    &&& q.grid_spec() == e.grid
    &&& q.notes() == bag_bulk_add(Map::empty(), note_recs(e.models.notes@))
    &&& entries_map(q.bars()) == bulk_put(Map::empty(), bar_recs(e.models.bars@))
    &&& entries_map(q.tempos()) == bulk_put(Map::empty(), tempo_recs(e.models.tempos@))
    &&& entries_map(q.dumpers()) == bulk_put(Map::empty(), ctrl_recs(e.models.dumpers@))
    &&& entries_map(q.softs()) == bulk_put(Map::empty(), ctrl_recs(e.models.softs@))
}

/// `e` is `p` as it is saved: its settings, the notes by tick (those under
/// one tick in their order) and the other items in order.
pub open spec fn exported_from(p: ProjectImpl, e: ExportedProject) -> bool {
    &&& e.rhythm == p.rhythm_spec()
    &&& e.key == p.key_spec()
    &&& e.grid == p.grid_spec()
    &&& e.models.bars@ == rec_values(p.bars())
    &&& e.models.tempos@ == rec_values(p.tempos())
    &&& e.models.dumpers@ == rec_values(p.dumpers())
    &&& e.models.softs@ == rec_values(p.softs())
    &&& e.models.notes@ == bag_listing(p.notes()).map_values(|x: (u32, Note)| x.1)
}

impl ProjectImpl {
    /// The project of a saved one: its items put into new stores (logging
    /// events), notes under the ticks at which they sound and the others by
    /// tick, one after the other.
    pub fn from_exported(exported: ExportedProject) -> (r: ProjectImpl)
        ensures
            r.wf(),
            imported_from(exported, r),
            r.note_log() == Some(seq![(BagLogEvent::BulkAddedRemoved {
                added: note_recs(exported.models.notes@),
                removed: Seq::empty(),
                metadata: select_metadata(false),
            })]),
            r.bar_log() == bulk_logged(Some(Seq::empty()), Map::empty(), bar_recs(exported.models.bars@), select_metadata(false)),
            r.tempo_log() == bulk_logged(Some(Seq::empty()), Map::empty(), tempo_recs(exported.models.tempos@), select_metadata(false)),
            r.dumper_log() == bulk_logged(Some(Seq::empty()), Map::empty(), ctrl_recs(exported.models.dumpers@), select_metadata(false)),
            r.soft_log() == bulk_logged(Some(Seq::empty()), Map::empty(), ctrl_recs(exported.models.softs@), select_metadata(false)),
    {
        let models = &exported.models;
        let mut note_repo = note_bag_new(true);
        proof { assert(note_bag(note_repo) =~= Map::<u32, Seq<Note>>::empty()); }
        note_bag_bulk_add(&mut note_repo, shared_note_records(&models.notes), ModelChangeMetadata::new());
        proof {
            assert(Map::<u32, Seq<Note>>::empty().dom() =~= Set::<u32>::empty());
            lemma_note_recs_keyed(models.notes@);
            lemma_bag_bulk_add_wf(Map::empty(), note_recs(models.notes@));
        }
        let mut bar_repo = bar_store_new(true);
        let mut tempo_repo = tempo_store_new(true);
        let mut dumper_repo = ctrl_store_new(true);
        let mut soft_repo = ctrl_store_new(true);
        proof {
            lemma_entries_map_empty(bar_entries(bar_repo));
            lemma_entries_map_empty(tempo_entries(tempo_repo));
            lemma_entries_map_empty(ctrl_entries(dumper_repo));
            lemma_entries_map_empty(ctrl_entries(soft_repo));
        }
        bar_store_bulk_add(&mut bar_repo, bar_records(&models.bars), ModelChangeMetadata::new());
        tempo_store_bulk_add(&mut tempo_repo, tempo_records(&models.tempos), ModelChangeMetadata::new());
        ctrl_store_bulk_add(&mut dumper_repo, ctrl_records(&models.dumpers), ModelChangeMetadata::new());
        ctrl_store_bulk_add(&mut soft_repo, ctrl_records(&models.softs), ModelChangeMetadata::new());
        let r = ProjectImpl {
            rhythm: exported.rhythm,
            key: exported.key,
            grid: exported.grid,
            note_repo,
            bar_repo,
            tempo_repo,
            dumper_repo,
            soft_repo,
        };
        proof {
            lemma_recs_keyed(models.bars@, models.tempos@, models.dumpers@);
            lemma_recs_keyed(models.bars@, models.tempos@, models.softs@);
            lemma_bulk_put_keyed(Map::<u32, Bar>::empty(), bar_recs(models.bars@));
            lemma_bulk_put_keyed(Map::<u32, Tempo>::empty(), tempo_recs(models.tempos@));
            lemma_bulk_put_keyed(Map::<u32, CtrlChg>::empty(), ctrl_recs(models.dumpers@));
            lemma_bulk_put_keyed(Map::<u32, CtrlChg>::empty(), ctrl_recs(models.softs@));
            lemma_keyed(r.bars());
            lemma_keyed(r.tempos());
            lemma_keyed(r.dumpers());
            lemma_keyed(r.softs());
        }
        r
    }

    /// The project as it is saved: its settings, the notes by tick and
    /// the other items in order.
    pub fn to_exported(&self) -> (r: ExportedProject)
        ensures
            exported_from(*self, r),
    {
        let entries = note_bag_from(&self.note_repo, 0);
        let mut notes: Vec<Note> = Vec::with_capacity(entries.len());
        let mut i: usize = 0;
        while i < entries.len()
            invariant
                i <= entries@.len(),
                notes@.len() == i,
                forall|j: int| 0 <= j < i ==> notes@[j] == *(#[trigger] entries@[j]).1,
            decreases entries@.len() - i,
        {
            notes.push(copy_note(&*entries[i].1));
            i = i + 1;
        }
        let bars = values_of(bar_records_of(&self.bar_repo));
        let tempos = values_of(tempo_records_of(&self.tempo_repo));
        let dumpers = values_of(ctrl_records_of(&self.dumper_repo));
        let softs = values_of(ctrl_records_of(&self.soft_repo));
        let ghost m = self.notes();
        let r = ExportedProject {
            rhythm: self.rhythm,
            key: self.key,
            grid: self.grid,
            models: Models { notes, bars, tempos, dumpers, softs },
        };
        proof {
            assert(bag_from(m, 0) =~= m);
            assert(r.models.notes@ =~= bag_listing(m).map_values(|e: (u32, Note)| e.1));
        }
        r
    }
}

/// The entries of a store of bars, in order.
fn bar_records_of(s: &Store<u32, Bar, ModelChangeMetadata>) -> (r: Vec<(u32, Bar)>)
    ensures
        r@ == bar_entries(*s),
{
    let e = bar_store_slice(s);
    let mut out: Vec<(u32, Bar)> = Vec::with_capacity(e.len());
    let mut i: usize = 0;
    while i < e.len()
        invariant
            i <= e@.len(),
            out@ == e@.take(i as int),
        decreases e@.len() - i,
    {
        out.push(e[i]);
        proof { assert(e@.take(i + 1) =~= e@.take(i as int).push(e@[i as int])); }
        i = i + 1;
    }
    proof { assert(e@.take(e@.len() as int) =~= e@); }
    out
}

/// The entries of a store of tempos, in order.
fn tempo_records_of(s: &Store<u32, Tempo, ModelChangeMetadata>) -> (r: Vec<(u32, Tempo)>)
    ensures
        r@ == tempo_entries(*s),
{
    let e = tempo_store_slice(s);
    let mut out: Vec<(u32, Tempo)> = Vec::with_capacity(e.len());
    let mut i: usize = 0;
    while i < e.len()
        invariant
            i <= e@.len(),
            out@ == e@.take(i as int),
        decreases e@.len() - i,
    {
        out.push(e[i]);
        proof { assert(e@.take(i + 1) =~= e@.take(i as int).push(e@[i as int])); }
        i = i + 1;
    }
    proof { assert(e@.take(e@.len() as int) =~= e@); }
    out
}

/// The entries of a store of pedal changes, in order.
fn ctrl_records_of(s: &Store<u32, CtrlChg, ModelChangeMetadata>) -> (r: Vec<(u32, CtrlChg)>)
    ensures
        r@ == ctrl_entries(*s),
{
    let e = ctrl_store_slice(s);
    let mut out: Vec<(u32, CtrlChg)> = Vec::with_capacity(e.len());
    let mut i: usize = 0;
    while i < e.len()
        invariant
            i <= e@.len(),
            out@ == e@.take(i as int),
        decreases e@.len() - i,
    {
        out.push(e[i]);
        proof { assert(e@.take(i + 1) =~= e@.take(i as int).push(e@[i as int])); }
        i = i + 1;
    }
    proof { assert(e@.take(e@.len() as int) =~= e@); }
    out
}

impl Default for ProjectImpl {
    /// An empty project in four-four time, without key, with the default grid.
    fn default() -> (r: ProjectImpl)
        ensures
            r.wf(),
            r.rhythm_spec().numerator@ == 4,
            r.key_spec()@ == 0,
            r.grid_spec()@ == 60,
            r.bars().len() == 0,
            r.tempos().len() == 0,
            r.dumpers().len() == 0,
            r.softs().len() == 0,
            r.notes().dom().is_empty(),
            r.note_log() == Some(Seq::<BagLogEvent>::empty()),
            r.bar_log() == Some(Seq::<StoreLogEvent<Bar>>::empty()),
            r.tempo_log() == Some(Seq::<StoreLogEvent<Tempo>>::empty()),
            r.dumper_log() == Some(Seq::<StoreLogEvent<CtrlChg>>::empty()),
            r.soft_log() == Some(Seq::<StoreLogEvent<CtrlChg>>::empty()),
    {
        ProjectImpl {
            rhythm: Rhythm::default(),
            key: Key::NONE(),
            grid: Grid::default(),
            note_repo: note_bag_new(true),
            bar_repo: bar_store_new(true),
            tempo_repo: tempo_store_new(true),
            dumper_repo: ctrl_store_new(true),
            soft_repo: ctrl_store_new(true),
        }
    }
}

/// Taking keys out of a map: those keys go, the other entries stay.
proof fn lemma_remove_keys_ext<T>(m: Map<u32, T>, ks: Seq<u32>)
    ensures
        forall|k: u32| #[trigger] remove_keys(m, ks).contains_key(k) <==> (m.contains_key(k) && !ks.contains(k)),
        forall|k: u32| #[trigger] remove_keys(m, ks).contains_key(k) ==> remove_keys(m, ks)[k] == m[k],
    decreases ks.len(),
{
    if ks.len() > 0 {
        let d = ks.drop_last();
        let x = ks.last();
        lemma_remove_keys_ext(m, d);
        let r = remove_keys(m, d);
        assert(remove_keys(m, ks) == r.remove(x));
        assert forall|k: u32| #[trigger] remove_keys(m, ks).contains_key(k) <==> (m.contains_key(k) && !ks.contains(k)) by {
            if ks.contains(k) && k != x {
                let i = choose|i: int| 0 <= i < ks.len() && ks[i] == k;
                assert(d[i] == k);
                assert(!r.contains_key(k));
            }
            if d.contains(k) {
                let i = choose|i: int| 0 <= i < d.len() && d[i] == k;
                assert(ks[i] == k);
            }
            if k == x {
                assert(ks[ks.len() - 1] == k);
            }
            assert(r.contains_key(k) <==> (m.contains_key(k) && !d.contains(k)));
        }
        assert forall|k: u32| #[trigger] remove_keys(m, ks).contains_key(k) implies remove_keys(m, ks)[k] == m[k] by {
            assert(r.contains_key(k));
        }
    }
}

/// Putting bars into a map: the entries under other ticks stay.
proof fn lemma_bars_put_ext(m: Map<u32, Bar>, bs: Seq<Bar>)
    ensures
        forall|k: u32| !bar_keys(bs).contains(k) ==> (#[trigger] bars_put(m, bs).contains_key(k) <==> m.contains_key(k)),
        forall|k: u32| !bar_keys(bs).contains(k) && m.contains_key(k) ==> #[trigger] bars_put(m, bs)[k] == m[k],
    decreases bs.len(),
{
    if bs.len() > 0 {
        let d = bs.drop_last();
        lemma_bars_put_ext(m, d);
        let p = bars_put(m, d);
        assert(bars_put(m, bs) == p.insert(bs.last().start_tick, bs.last()));
        assert forall|k: u32| !bar_keys(bs).contains(k) implies !bar_keys(d).contains(k) && k != bs.last().start_tick by {
            if bar_keys(d).contains(k) {
                let i = choose|i: int| 0 <= i < bar_keys(d).len() && bar_keys(d)[i] == k;
                assert(bar_keys(bs)[i] == k);
            }
            assert(bar_keys(bs)[bs.len() - 1] == bs.last().start_tick);
        }
        assert forall|k: u32| !bar_keys(bs).contains(k) implies (#[trigger] bars_put(m, bs).contains_key(k) <==> m.contains_key(k)) by {
            assert(!bar_keys(d).contains(k));
        }
        assert forall|k: u32| !bar_keys(bs).contains(k) && m.contains_key(k) implies #[trigger] bars_put(m, bs)[k] == m[k] by {
            assert(!bar_keys(d).contains(k));
        }
    }
}

/// Bars put where there was none, then their ticks taken out: the map is as before.
proof fn lemma_fill_undone(m: Map<u32, Bar>, bs: Seq<Bar>)
    requires
        forall|i: int| 0 <= i < bs.len() ==> !m.contains_key(#[trigger] bs[i].start_tick),
    ensures
        remove_keys(bars_put(m, bs), bar_keys(bs)) == m,
{
    lemma_remove_keys_ext(bars_put(m, bs), bar_keys(bs));
    lemma_bars_put_ext(m, bs);
    let r = remove_keys(bars_put(m, bs), bar_keys(bs));
    assert forall|k: u32| r.contains_key(k) <==> m.contains_key(k) by {
        if m.contains_key(k) && bar_keys(bs).contains(k) {
            let i = choose|i: int| 0 <= i < bar_keys(bs).len() && bar_keys(bs)[i] == k;
            assert(bs[i].start_tick == k);
        }
    }
    assert(r =~= m);
}

/// The bars added after a project's bars start after all of them.
proof fn lemma_fill_after(
    e: Seq<(u32, Bar)>,
    bs: Seq<Bar>,
    base: Rhythm,
    notes: Map<u32, Seq<Note>>,
    tempos: Map<u32, Tempo>,
    dumpers: Map<u32, CtrlChg>,
    softs: Map<u32, CtrlChg>,
)
    requires
        keys_increasing(e),
        fills(bs, base, entries_map(e), notes, tempos, dumpers, softs),
    ensures
        forall|i: int| 0 <= i < bs.len() ==> !entries_map(e).contains_key(#[trigger] bs[i].start_tick),
{
    lemma_last_key_is_max(e);
    let from = max_key(entries_map(e));
    let len = fill_len_of(base, entries_map(e));
    assert forall|i: int| 0 <= i < bs.len() implies !entries_map(e).contains_key(#[trigger] bs[i].start_tick) by {
        assert(is_plain_bar(bs[i], from + (i + 1) * len));
        assert((i + 1) * len > 0) by (nonlinear_arith)
            requires i >= 0, len > 0;
        if e.len() == 0 {
            lemma_entries_map_empty(e);
        } else if entries_map(e).contains_key(bs[i].start_tick) {
            assert(bs[i].start_tick <= e.last().0);
        }
    }
}

/// An item put under a key, then the key taken out and what it replaced
/// put back: the map is as before.
proof fn lemma_put_undone<T: HaveStartTick>(m: Map<u32, T>, k: u32, v: T, rm: Seq<T>, recs: Seq<(u32, T)>)
    requires
        map_keyed(m),
        rm == opt_seq(value_at(m, k)),
        recs.len() == rm.len(),
        forall|i: int| 0 <= i < rm.len() ==> (#[trigger] recs[i]) == (rm[i].start_tick_spec(), rm[i]),
    ensures
        bulk_put(remove_keys(m.insert(k, v), seq![k]), recs) == m,
{
    reveal_with_fuel(remove_keys, 2);
    reveal_with_fuel(bulk_put, 2);
    assert(seq![k].drop_last() =~= Seq::<u32>::empty());
    assert(remove_keys(m.insert(k, v), seq![k]) == m.insert(k, v).remove(k));
    if m.contains_key(k) {
        assert(recs.drop_last() =~= Seq::<(u32, T)>::empty());
        assert(recs.last() == (k, m[k]));
        assert(m.insert(k, v).remove(k).insert(k, m[k]) =~= m);
    } else {
        assert(m.insert(k, v).remove(k) =~= m);
    }
}

/// Two projects with the same settings and the same items under the same ticks.
pub open spec fn same_contents(a: ProjectImpl, b: ProjectImpl) -> bool {
    &&& keeps_settings(a, b)
    &&& a.notes() == b.notes()
    &&& entries_map(a.bars()) == entries_map(b.bars())
    &&& entries_map(a.tempos()) == entries_map(b.tempos())
    &&& entries_map(a.dumpers()) == entries_map(b.dumpers())
    &&& entries_map(a.softs()) == entries_map(b.softs())
}

/// The notes under a tick (none where there is none).
pub open spec fn notes_at(m: Map<u32, Seq<Note>>, k: u32) -> Seq<Note> {
    if m.contains_key(k) { m[k] } else { Seq::empty() }
}

/// Undoing a new time signature, key or grid brings the old one back and
/// leaves everything else as it was.
pub proof fn law_undo_setting(before: ProjectImpl, cmd: ProjectCmd, after: ProjectImpl, back: ProjectImpl)
    requires
        match cmd {
            ProjectCmd::SetRhythm(o, _) => o == before.rhythm_spec(),
            ProjectCmd::SetKey(o, _) => o == before.key_spec(),
            ProjectCmd::SetGrid(o, _) => o == before.grid_spec(),
            ProjectCmd::ModelChanged { .. } => false,
        },
        redone(cmd, before, after),
        undone(cmd, after, back),
    ensures
        settings_set(before, back, before.rhythm_spec(), before.key_spec(), before.grid_spec()),
{
}

/// Undoing the command that putting a bar gave takes the project back to
/// where it was.
pub proof fn law_undo_add_bar(before: ProjectImpl, bar: Bar, select: bool, after: ProjectImpl, cmd: ProjectCmd, back: ProjectImpl)
    requires
        before.wf(),
        bar_added(before, bar, select, after, cmd),
        undone(cmd, after, back),
    ensures
        same_contents(before, back),
{
    lemma_keyed(before.bars());
    if let ProjectCmd::ModelChanged { added, removed, .. } = cmd {
        assert(bar_keys(added.bars@) =~= seq![bar.start_tick]);
        lemma_put_undone(entries_map(before.bars()), bar.start_tick, bar, removed.bars@, bar_recs(removed.bars@));
        assert(tempo_keys(added.tempos@) =~= Seq::<u32>::empty());
        assert(ctrl_keys(added.dumpers@) =~= Seq::<u32>::empty());
        assert(ctrl_keys(added.softs@) =~= Seq::<u32>::empty());
        assert(note_recs(removed.notes@) =~= Seq::<(u32, Note)>::empty());
        assert(tempo_recs(removed.tempos@) =~= Seq::<(u32, Tempo)>::empty());
        assert(ctrl_recs(removed.dumpers@) =~= Seq::<(u32, CtrlChg)>::empty());
        assert(ctrl_recs(removed.softs@) =~= Seq::<(u32, CtrlChg)>::empty());
    }
}

/// Undoing the command that putting a tempo change gave takes the project
/// back to where it was: the tempo change replaced comes back and the bars
/// added go.
pub proof fn law_undo_add_tempo(before: ProjectImpl, tempo: Tempo, select: bool, after: ProjectImpl, cmd: ProjectCmd, back: ProjectImpl)
    requires
        before.wf(),
        tempo_added(before, tempo, select, after, cmd),
        undone(cmd, after, back),
    ensures
        same_contents(before, back),
{
    lemma_keyed(before.tempos());
    if let ProjectCmd::ModelChanged { added, removed, .. } = cmd {
        lemma_fill_after(before.bars(), added.bars@, before.rhythm_spec(), before.notes(),
            entries_map(before.tempos()).insert(tempo.start_tick, tempo), entries_map(before.dumpers()), entries_map(before.softs()));
        lemma_fill_undone(entries_map(before.bars()), added.bars@);
        assert(tempo_keys(added.tempos@) =~= seq![tempo.start_tick]);
        lemma_put_undone(entries_map(before.tempos()), tempo.start_tick, tempo, removed.tempos@, tempo_recs(removed.tempos@));
        assert(ctrl_keys(added.dumpers@) =~= Seq::<u32>::empty());
        assert(ctrl_keys(added.softs@) =~= Seq::<u32>::empty());
        assert(note_recs(removed.notes@) =~= Seq::<(u32, Note)>::empty());
        assert(bar_recs(removed.bars@) =~= Seq::<(u32, Bar)>::empty());
        assert(ctrl_recs(removed.dumpers@) =~= Seq::<(u32, CtrlChg)>::empty());
        assert(ctrl_recs(removed.softs@) =~= Seq::<(u32, CtrlChg)>::empty());
    }
}

/// Undoing the command that putting a dumper pedal change gave takes the
/// project back to where it was.
pub proof fn law_undo_add_dumper(before: ProjectImpl, dumper: CtrlChg, select: bool, after: ProjectImpl, cmd: ProjectCmd, back: ProjectImpl)
    requires
        before.wf(),
        dumper_added(before, dumper, select, after, cmd),
        undone(cmd, after, back),
    ensures
        same_contents(before, back),
{
    lemma_keyed(before.dumpers());
    if let ProjectCmd::ModelChanged { added, removed, .. } = cmd {
        lemma_fill_after(before.bars(), added.bars@, before.rhythm_spec(), before.notes(), entries_map(before.tempos()),
            entries_map(before.dumpers()).insert(dumper.start_tick, dumper), entries_map(before.softs()));
        lemma_fill_undone(entries_map(before.bars()), added.bars@);
        assert(ctrl_keys(added.dumpers@) =~= seq![dumper.start_tick]);
        lemma_put_undone(entries_map(before.dumpers()), dumper.start_tick, dumper, removed.dumpers@, ctrl_recs(removed.dumpers@));
        assert(tempo_keys(added.tempos@) =~= Seq::<u32>::empty());
        assert(ctrl_keys(added.softs@) =~= Seq::<u32>::empty());
        assert(note_recs(removed.notes@) =~= Seq::<(u32, Note)>::empty());
        assert(bar_recs(removed.bars@) =~= Seq::<(u32, Bar)>::empty());
        assert(tempo_recs(removed.tempos@) =~= Seq::<(u32, Tempo)>::empty());
        assert(ctrl_recs(removed.softs@) =~= Seq::<(u32, CtrlChg)>::empty());
    }
}

/// Undoing the command that putting a soft pedal change gave takes the
/// project back to where it was.
pub proof fn law_undo_add_soft(before: ProjectImpl, soft: CtrlChg, select: bool, after: ProjectImpl, cmd: ProjectCmd, back: ProjectImpl)
    requires
        before.wf(),
        soft_added(before, soft, select, after, cmd),
        undone(cmd, after, back),
    ensures
        same_contents(before, back),
{
    lemma_keyed(before.softs());
    if let ProjectCmd::ModelChanged { added, removed, .. } = cmd {
        lemma_fill_after(before.bars(), added.bars@, before.rhythm_spec(), before.notes(), entries_map(before.tempos()),
            entries_map(before.dumpers()), entries_map(before.softs()).insert(soft.start_tick, soft));
        lemma_fill_undone(entries_map(before.bars()), added.bars@);
        assert(ctrl_keys(added.softs@) =~= seq![soft.start_tick]);
        lemma_put_undone(entries_map(before.softs()), soft.start_tick, soft, removed.softs@, ctrl_recs(removed.softs@));
        assert(tempo_keys(added.tempos@) =~= Seq::<u32>::empty());
        assert(ctrl_keys(added.dumpers@) =~= Seq::<u32>::empty());
        assert(note_recs(removed.notes@) =~= Seq::<(u32, Note)>::empty());
        assert(bar_recs(removed.bars@) =~= Seq::<(u32, Bar)>::empty());
        assert(tempo_recs(removed.tempos@) =~= Seq::<(u32, Tempo)>::empty());
        assert(ctrl_recs(removed.dumpers@) =~= Seq::<(u32, CtrlChg)>::empty());
    }
}

/// Among the places of a note up to `i`, there is a first.
proof fn lemma_min_index(s: Seq<Note>, n: Note, i: int)
    requires
        0 <= i < s.len(),
        s[i] == n,
    ensures
        exists|j: int| 0 <= j < s.len() && s[j] == n && forall|l: int| 0 <= l < j ==> s[l] != n,
    decreases i,
{
    if exists|l: int| 0 <= l < i && s[l] == n {
        let l = choose|l: int| 0 <= l < i && s[l] == n;
        lemma_min_index(s, n, l);
    } else {
        assert(0 <= i < s.len() && s[i] == n && forall|l: int| 0 <= l < i ==> s[l] != n);
    }
}

/// Where a note first is, when it is there.
proof fn lemma_first_index(s: Seq<Note>, n: Note)
    requires
        s.contains(n),
    ensures
        0 <= first_index(s, n) < s.len(),
        s[first_index(s, n)] == n,
        forall|j: int| 0 <= j < first_index(s, n) ==> s[j] != n,
{
    let i0 = choose|i: int| 0 <= i < s.len() && s[i] == n;
    lemma_min_index(s, n, i0);
}

/// Undoing the command that adding a note gave takes the project back to
/// where it was: the same notes under each tick (in an order that may
/// differ where an equal note was already there), and the bars added go.
pub proof fn law_undo_add_note(before: ProjectImpl, note: Note, select: bool, after: ProjectImpl, cmd: ProjectCmd, back: ProjectImpl)
    requires
        before.wf(),
        note_added(before, note, select, after, cmd),
        undone(cmd, after, back),
    ensures
        same_contents_unordered(before, back),
{
    broadcast use vstd::seq_lib::group_to_multiset_ensures;
    if let ProjectCmd::ModelChanged { added, removed, .. } = cmd {
        let m = before.notes();
        let k = note_start_tick(note);
        let m1 = bag_add(m, k, note);
        lemma_fill_after(before.bars(), added.bars@, before.rhythm_spec(), m1, entries_map(before.tempos()),
            entries_map(before.dumpers()), entries_map(before.softs()));
        lemma_fill_undone(entries_map(before.bars()), added.bars@);
        assert(added.notes@.drop_last() =~= Seq::<Note>::empty());
        assert(note_recs(removed.notes@) =~= Seq::<(u32, Note)>::empty());
        assert(tempo_keys(added.tempos@) =~= Seq::<u32>::empty());
        assert(ctrl_keys(added.dumpers@) =~= Seq::<u32>::empty());
        assert(ctrl_keys(added.softs@) =~= Seq::<u32>::empty());
        assert(bar_recs(removed.bars@) =~= Seq::<(u32, Bar)>::empty());
        assert(tempo_recs(removed.tempos@) =~= Seq::<(u32, Tempo)>::empty());
        assert(ctrl_recs(removed.dumpers@) =~= Seq::<(u32, CtrlChg)>::empty());
        assert(ctrl_recs(removed.softs@) =~= Seq::<(u32, CtrlChg)>::empty());
        let s1 = m1[k];
        assert(s1 =~= notes_at(m, k).push(note));
        assert(s1[s1.len() - 1] == note);
        lemma_first_index(s1, note);
        let i = first_index(s1, note);
        let rest = s1.remove(i);
        let r = bag_remove(m1, k, note).0;
        reveal_with_fuel(notes_taken_out, 2);
        assert(added.notes@.last() == note);
        assert(notes_taken_out(m1, added.notes@) == r);
        assert(back.notes() == r);
        assert(rest.to_multiset() =~= notes_at(m, k).to_multiset()) by {
            assert(rest.to_multiset() == s1.to_multiset().remove(note));
            assert(s1.to_multiset() == notes_at(m, k).to_multiset().insert(note));
        }
        assert forall|j: u32| #[trigger] notes_at_ms(r, j) == notes_at_ms(m, j) by {
            if j == k {
                if rest.len() == 0 {
                    assert(notes_at(r, j) =~= rest);
                } else {
                    assert(notes_at(r, j) == rest);
                }
            } else {
                assert(notes_at(r, j) == notes_at(m, j));
            }
        }
    }
}

/// The notes under a tick, counted without their order.
pub open spec fn notes_at_ms(m: Map<u32, Seq<Note>>, k: u32) -> Multiset<Note> {
    notes_at(m, k).to_multiset()
}

/// The notes of the records under a tick, counted without their order.
pub open spec fn recs_at(recs: Seq<(u32, Note)>, k: u32) -> Multiset<Note>
    decreases recs.len(),
{
    if recs.len() == 0 {
        Multiset::empty()
    } else if recs.last().0 == k {
        recs_at(recs.drop_last(), k).insert(recs.last().1)
    } else {
        recs_at(recs.drop_last(), k)
    }
}

/// Adding a note adds it to the notes under its tick and to no others.
proof fn lemma_bag_add_ms(m: Map<u32, Seq<Note>>, k: u32, n: Note, j: u32)
    ensures
        notes_at_ms(bag_add(m, k, n), j) == if j == k { notes_at_ms(m, k).insert(n) } else { notes_at_ms(m, j) },
{
    broadcast use vstd::seq_lib::group_to_multiset_ensures;
    if j == k {
        if !m.contains_key(k) {
            assert(seq![n] =~= Seq::<Note>::empty().push(n));
        }
        assert(notes_at(bag_add(m, k, n), k) == notes_at(m, k).push(n));
    } else {
        assert(notes_at(bag_add(m, k, n), j) == notes_at(m, j));
    }
}

/// Removing a note that is under the tick takes it from the notes there and
/// from no others.
proof fn lemma_bag_remove_ms(m: Map<u32, Seq<Note>>, k: u32, n: Note, j: u32)
    requires
        notes_at_ms(m, k).count(n) > 0,
    ensures
        bag_remove(m, k, n).1 == Some(n),
        notes_at_ms(bag_remove(m, k, n).0, j) == if j == k { notes_at_ms(m, k).remove(n) } else { notes_at_ms(m, j) },
{
    broadcast use vstd::seq_lib::group_to_multiset_ensures;
    assert(notes_at(m, k).contains(n));
    assert(m.contains_key(k));
    lemma_first_index(m[k], n);
    let i = first_index(m[k], n);
    let rest = m[k].remove(i);
    assert(rest.to_multiset() == m[k].to_multiset().remove(n));
    let r = bag_remove(m, k, n).0;
    if j == k {
        if rest.len() == 0 {
            assert(notes_at(r, k) =~= rest);
        } else {
            assert(notes_at(r, k) == rest);
        }
    } else {
        assert(notes_at(r, j) == notes_at(m, j));
    }
}

/// Notes added one after the other: each tick gains the notes of its records.
proof fn lemma_bag_bulk_add_ms(m: Map<u32, Seq<Note>>, recs: Seq<(u32, Note)>, j: u32)
    ensures
        notes_at_ms(bag_bulk_add(m, recs), j) == notes_at_ms(m, j).add(recs_at(recs, j)),
    decreases recs.len(),
{
    if recs.len() == 0 {
        assert(notes_at_ms(m, j).add(Multiset::empty()) =~= notes_at_ms(m, j));
    } else {
        let d = recs.drop_last();
        lemma_bag_bulk_add_ms(m, d, j);
        lemma_bag_add_ms(bag_bulk_add(m, d), recs.last().0, recs.last().1, j);
        if recs.last().0 == j {
            assert(notes_at_ms(m, j).add(recs_at(d, j)).insert(recs.last().1)
                =~= notes_at_ms(m, j).add(recs_at(d, j).insert(recs.last().1)));
        }
    }
}

/// Notes removed one after the other, where all of them are there: each
/// tick loses the notes of its records, and every note comes out.
proof fn lemma_bag_bulk_remove_ms(m: Map<u32, Seq<Note>>, recs: Seq<(u32, Note)>)
    requires
        forall|k: u32| #[trigger] recs_at(recs, k).subset_of(notes_at_ms(m, k)),
    ensures
        forall|j: u32| #[trigger] notes_at_ms(bag_bulk_remove(m, recs).0, j) == notes_at_ms(m, j).sub(recs_at(recs, j)),
        bag_bulk_remove(m, recs).1 == recs,
    decreases recs.len(),
{
    if recs.len() == 0 {
        assert forall|j: u32| #[trigger] notes_at_ms(bag_bulk_remove(m, recs).0, j) == notes_at_ms(m, j).sub(recs_at(recs, j)) by {
            assert(notes_at_ms(m, j).sub(Multiset::empty()) =~= notes_at_ms(m, j));
        }
        assert(bag_bulk_remove(m, recs).1 =~= recs);
    } else {
        let d = recs.drop_last();
        let (t, n) = recs.last();
        assert forall|k: u32| #[trigger] recs_at(d, k).subset_of(notes_at_ms(m, k)) by {
            assert(recs_at(recs, k).subset_of(notes_at_ms(m, k)));
            if t == k {
                assert forall|x: Note| recs_at(d, k).count(x) <= #[trigger] recs_at(recs, k).count(x) by {}
            }
        }
        lemma_bag_bulk_remove_ms(m, d);
        let m1 = bag_bulk_remove(m, d).0;
        assert(recs_at(recs, t).subset_of(notes_at_ms(m, t)));
        assert(recs_at(recs, t).count(n) == recs_at(d, t).count(n) + 1);
        assert(notes_at_ms(m1, t) == notes_at_ms(m, t).sub(recs_at(d, t)));
        assert(notes_at_ms(m1, t).count(n) > 0);
        assert forall|j: u32| #[trigger] notes_at_ms(bag_bulk_remove(m, recs).0, j) == notes_at_ms(m, j).sub(recs_at(recs, j)) by {
            lemma_bag_remove_ms(m1, t, n, j);
            assert(notes_at_ms(m1, j) == notes_at_ms(m, j).sub(recs_at(d, j)));
            if j == t {
                assert(recs_at(recs, j).subset_of(notes_at_ms(m, j)));
                assert(notes_at_ms(m, j).sub(recs_at(d, j)).remove(n) =~= notes_at_ms(m, j).sub(recs_at(recs, j)));
            }
        }
        lemma_bag_remove_ms(m1, t, n, t);
        assert(bag_bulk_remove(m, recs).1 =~= recs);
    }
}

/// Taking notes out one after the other is removing their records.
proof fn lemma_notes_taken_out_bulk(m: Map<u32, Seq<Note>>, ns: Seq<Note>)
    ensures
        notes_taken_out(m, ns) == bag_bulk_remove(m, note_recs(ns)).0,
    decreases ns.len(),
{
    if ns.len() > 0 {
        lemma_notes_taken_out_bulk(m, ns.drop_last());
        assert(note_recs(ns).drop_last() =~= note_recs(ns.drop_last()));
    }
}

/// Records that agree with a map, put into a part of it that agrees with
/// it: the keys of the part and of the records, with the map's values.
proof fn lemma_bulk_put_agree<T>(x: Map<u32, T>, recs: Seq<(u32, T)>, m: Map<u32, T>)
    requires
        forall|k: u32| #[trigger] x.contains_key(k) ==> m.contains_key(k) && x[k] == m[k],
        forall|i: int| 0 <= i < recs.len() ==> m.contains_key((#[trigger] recs[i]).0) && m[recs[i].0] == recs[i].1,
    ensures
        forall|k: u32| #[trigger] bulk_put(x, recs).contains_key(k)
            <==> (x.contains_key(k) || exists|i: int| 0 <= i < recs.len() && (#[trigger] recs[i]).0 == k),
        forall|k: u32| #[trigger] bulk_put(x, recs).contains_key(k) ==> m.contains_key(k) && bulk_put(x, recs)[k] == m[k],
    decreases recs.len(),
{
    if recs.len() > 0 {
        let d = recs.drop_last();
        assert forall|i: int| 0 <= i < d.len() implies m.contains_key((#[trigger] d[i]).0) && m[d[i].0] == d[i].1 by {
            assert(d[i] == recs[i]);
        }
        lemma_bulk_put_agree(x, d, m);
        assert(recs.last() == recs[recs.len() - 1]);
        assert(bulk_put(x, recs) == bulk_put(x, d).insert(recs.last().0, recs.last().1));
        assert forall|k: u32| #[trigger] bulk_put(x, recs).contains_key(k)
            <==> (x.contains_key(k) || exists|i: int| 0 <= i < recs.len() && (#[trigger] recs[i]).0 == k) by {
            if exists|i: int| 0 <= i < recs.len() && (#[trigger] recs[i]).0 == k {
                let i = choose|i: int| 0 <= i < recs.len() && (#[trigger] recs[i]).0 == k;
                if i < recs.len() - 1 {
                    assert(d[i] == recs[i]);
                }
            }
            if exists|i: int| 0 <= i < d.len() && (#[trigger] d[i]).0 == k {
                let i = choose|i: int| 0 <= i < d.len() && (#[trigger] d[i]).0 == k;
                assert(recs[i] == d[i]);
            }
        }
    }
}

/// Taking keys out of a map and putting back the map's own entries under
/// them gives the map.
proof fn lemma_put_back<T>(m: Map<u32, T>, ks: Seq<u32>, recs: Seq<(u32, T)>)
    requires
        ks.len() == recs.len(),
        forall|i: int| 0 <= i < recs.len() ==> ks[i] == (#[trigger] recs[i]).0 && m.contains_key(recs[i].0) && m[recs[i].0] == recs[i].1,
    ensures
        bulk_put(remove_keys(m, ks), recs) == m,
{
    lemma_remove_keys_ext(m, ks);
    let x = remove_keys(m, ks);
    lemma_bulk_put_agree(x, recs, m);
    let r = bulk_put(x, recs);
    assert forall|k: u32| #[trigger] r.contains_key(k) <==> m.contains_key(k) by {
        if m.contains_key(k) && ks.contains(k) {
            let i = choose|i: int| 0 <= i < ks.len() && ks[i] == k;
            assert(recs[i].0 == k);
        }
    }
    assert(r =~= m);
}

/// Each record is an entry of the map.
pub open spec fn held<T>(m: Map<u32, T>, recs: Seq<(u32, T)>) -> bool {
    forall|i: int| 0 <= i < recs.len() ==> m.contains_key((#[trigger] recs[i]).0) && m[recs[i].0] == recs[i].1
}

/// Every item of `ms` is in the project: the notes under the ticks at which
/// they sound (each as often as it is listed), the other items under their
/// start ticks.
pub open spec fn all_there(p: ProjectImpl, ms: Models) -> bool {
    &&& forall|k: u32| #[trigger] recs_at(note_recs(ms.notes@), k).subset_of(notes_at_ms(p.notes(), k))
    &&& held(entries_map(p.bars()), bar_recs(ms.bars@))
    &&& held(entries_map(p.tempos()), tempo_recs(ms.tempos@))
    &&& held(entries_map(p.dumpers()), ctrl_recs(ms.dumpers@))
    &&& held(entries_map(p.softs()), ctrl_recs(ms.softs@))
}

/// The same settings and items, the notes under each tick maybe in another
/// order.
pub open spec fn same_contents_unordered(a: ProjectImpl, b: ProjectImpl) -> bool {
    &&& keeps_settings(a, b)
    &&& forall|k: u32| #[trigger] notes_at_ms(b.notes(), k) == notes_at_ms(a.notes(), k)
    &&& entries_map(b.bars()) == entries_map(a.bars())
    &&& entries_map(b.tempos()) == entries_map(a.tempos())
    &&& entries_map(b.dumpers()) == entries_map(a.dumpers())
    &&& entries_map(b.softs()) == entries_map(a.softs())
}

/// Notes taken out where all of them are there, then added back: the same
/// notes under each tick.
proof fn lemma_notes_out_and_back(m: Map<u32, Seq<Note>>, ns: Seq<Note>)
    requires
        forall|k: u32| #[trigger] recs_at(note_recs(ns), k).subset_of(notes_at_ms(m, k)),
    ensures
        forall|k: u32| #[trigger] notes_at_ms(bag_bulk_add(notes_taken_out(m, ns), note_recs(ns)), k) == notes_at_ms(m, k),
{
    lemma_notes_taken_out_bulk(m, ns);
    lemma_bag_bulk_remove_ms(m, note_recs(ns));
    let m1 = notes_taken_out(m, ns);
    assert forall|k: u32| #[trigger] notes_at_ms(bag_bulk_add(m1, note_recs(ns)), k) == notes_at_ms(m, k) by {
        lemma_bag_bulk_add_ms(m1, note_recs(ns), k);
        assert(recs_at(note_recs(ns), k).subset_of(notes_at_ms(m, k)));
        assert(notes_at_ms(m, k).sub(recs_at(note_recs(ns), k)).add(recs_at(note_recs(ns), k)) =~= notes_at_ms(m, k));
    }
}

/// Undoing a removal of items that were all in the project puts them back:
/// the same items, the notes under each tick maybe in another order.
pub proof fn law_undo_bulk_remove(before: ProjectImpl, to_remove: Models, cmd: ProjectCmd, after: ProjectImpl, back: ProjectImpl)
    requires
        before.wf(),
        all_there(before, to_remove),
        cmd matches ProjectCmd::ModelChanged { added, removed, .. } && added.is_empty_spec() && removed == to_remove,
        redone(cmd, before, after),
        undone(cmd, after, back),
    ensures
        same_contents_unordered(before, back),
{
    if let ProjectCmd::ModelChanged { added, removed, .. } = cmd {
        reveal_with_fuel(bag_bulk_add, 1);
        assert(note_recs(added.notes@) =~= Seq::<(u32, Note)>::empty());
        assert(added.notes@ =~= Seq::<Note>::empty());
        assert(bar_recs(added.bars@) =~= Seq::<(u32, Bar)>::empty());
        assert(tempo_recs(added.tempos@) =~= Seq::<(u32, Tempo)>::empty());
        assert(ctrl_recs(added.dumpers@) =~= Seq::<(u32, CtrlChg)>::empty());
        assert(ctrl_recs(added.softs@) =~= Seq::<(u32, CtrlChg)>::empty());
        assert(bar_keys(added.bars@) =~= Seq::<u32>::empty());
        assert(tempo_keys(added.tempos@) =~= Seq::<u32>::empty());
        assert(ctrl_keys(added.dumpers@) =~= Seq::<u32>::empty());
        assert(ctrl_keys(added.softs@) =~= Seq::<u32>::empty());
        lemma_notes_out_and_back(before.notes(), to_remove.notes@);
        lemma_put_back(entries_map(before.bars()), bar_keys(to_remove.bars@), bar_recs(to_remove.bars@));
        lemma_put_back(entries_map(before.tempos()), tempo_keys(to_remove.tempos@), tempo_recs(to_remove.tempos@));
        lemma_put_back(entries_map(before.dumpers()), ctrl_keys(to_remove.dumpers@), ctrl_recs(to_remove.dumpers@));
        lemma_put_back(entries_map(before.softs()), ctrl_keys(to_remove.softs@), ctrl_recs(to_remove.softs@));
    }
}

/// Notes removed where all of them are there, others added, then the added
/// taken out and the removed added back: the same notes under each tick.
proof fn lemma_notes_swap_and_back(m: Map<u32, Seq<Note>>, out: Seq<Note>, put: Seq<Note>)
    requires
        forall|k: u32| #[trigger] recs_at(note_recs(out), k).subset_of(notes_at_ms(m, k)),
    ensures
        forall|k: u32| #[trigger] notes_at_ms(
            bag_bulk_add(notes_taken_out(bag_bulk_add(bag_bulk_remove(m, note_recs(out)).0, note_recs(put)), put), note_recs(out)), k)
            == notes_at_ms(m, k),
{
    let ro = note_recs(out);
    let rp = note_recs(put);
    lemma_bag_bulk_remove_ms(m, ro);
    let m1 = bag_bulk_remove(m, ro).0;
    let m2 = bag_bulk_add(m1, rp);
    assert forall|k: u32| #[trigger] notes_at_ms(m2, k) == notes_at_ms(m, k).sub(recs_at(ro, k)).add(recs_at(rp, k)) by {
        lemma_bag_bulk_add_ms(m1, rp, k);
    }
    assert forall|k: u32| #[trigger] recs_at(rp, k).subset_of(notes_at_ms(m2, k)) by {
        assert(notes_at_ms(m2, k) == notes_at_ms(m, k).sub(recs_at(ro, k)).add(recs_at(rp, k)));
    }
    lemma_notes_taken_out_bulk(m2, put);
    lemma_bag_bulk_remove_ms(m2, rp);
    let m3 = notes_taken_out(m2, put);
    assert forall|k: u32| #[trigger] notes_at_ms(bag_bulk_add(m3, ro), k) == notes_at_ms(m, k) by {
        lemma_bag_bulk_add_ms(m3, ro, k);
        assert(notes_at_ms(m2, k) == notes_at_ms(m, k).sub(recs_at(ro, k)).add(recs_at(rp, k)));
        assert(recs_at(ro, k).subset_of(notes_at_ms(m, k)));
        assert(notes_at_ms(m, k).sub(recs_at(ro, k)).add(recs_at(rp, k)).sub(recs_at(rp, k)).add(recs_at(ro, k))
            =~= notes_at_ms(m, k));
    }
}

/// Undoing the making of a tuplet of notes that were all in the project
/// takes the project back: the same items, the notes under each tick maybe
/// in another order.
pub proof fn law_undo_tuplize(before: ProjectImpl, notes: Seq<Rc<Note>>, after: ProjectImpl, cmd: ProjectCmd, back: ProjectImpl)
    requires
        before.wf(),
        1 < notes.len(),
        forall|k: u32| #[trigger] recs_at(note_recs(unwrapped(notes)), k).subset_of(notes_at_ms(before.notes(), k)),
        keeps_settings(before, after),
        after.tempos() == before.tempos(),
        after.dumpers() == before.dumpers(),
        after.softs() == before.softs(),
        tuplized(before, notes, after, Ok(cmd)),
        undone(cmd, after, back),
    ensures
        same_contents_unordered(before, back),
{
    if let ProjectCmd::ModelChanged { added, removed, .. } = cmd {
        reveal_with_fuel(bag_bulk_add, 1);
        lemma_notes_swap_and_back(before.notes(), unwrapped(notes), tuplet_of(notes));
        lemma_fill_after(before.bars(), added.bars@, before.rhythm_spec(), after.notes(), entries_map(before.tempos()),
            entries_map(before.dumpers()), entries_map(before.softs()));
        lemma_fill_undone(entries_map(before.bars()), added.bars@);
        assert(bar_recs(removed.bars@) =~= Seq::<(u32, Bar)>::empty());
        assert(tempo_recs(removed.tempos@) =~= Seq::<(u32, Tempo)>::empty());
        assert(ctrl_recs(removed.dumpers@) =~= Seq::<(u32, CtrlChg)>::empty());
        assert(ctrl_recs(removed.softs@) =~= Seq::<(u32, CtrlChg)>::empty());
        assert(tempo_keys(added.tempos@) =~= Seq::<u32>::empty());
        assert(ctrl_keys(added.dumpers@) =~= Seq::<u32>::empty());
        assert(ctrl_keys(added.softs@) =~= Seq::<u32>::empty());
    }
}

/// The keys of records.
pub open spec fn rec_keys<T>(recs: Seq<(u32, T)>) -> Seq<u32> {
    recs.map_values(|p: (u32, T)| p.0)
}

/// No two records have one key.
pub open spec fn keys_distinct<T>(recs: Seq<(u32, T)>) -> bool {
    forall|i: int, j: int| 0 <= i < j < recs.len() ==> (#[trigger] recs[i]).0 != (#[trigger] recs[j]).0
}

/// Records put into a map: its keys and theirs; where no record goes, the
/// map's entries.
proof fn lemma_bulk_put_outside<T>(m: Map<u32, T>, recs: Seq<(u32, T)>)
    ensures
        forall|k: u32| #[trigger] bulk_put(m, recs).contains_key(k) <==> (m.contains_key(k) || rec_keys(recs).contains(k)),
        forall|k: u32| !rec_keys(recs).contains(k) && m.contains_key(k) ==> #[trigger] bulk_put(m, recs)[k] == m[k],
    decreases recs.len(),
{
    if recs.len() > 0 {
        let d = recs.drop_last();
        lemma_bulk_put_outside(m, d);
        assert(bulk_put(m, recs) == bulk_put(m, d).insert(recs.last().0, recs.last().1));
        assert forall|k: u32| #[trigger] rec_keys(recs).contains(k) <==> (rec_keys(d).contains(k) || k == recs.last().0) by {
            if rec_keys(recs).contains(k) {
                let i = choose|i: int| 0 <= i < rec_keys(recs).len() && rec_keys(recs)[i] == k;
                if i < d.len() {
                    assert(rec_keys(d)[i] == k);
                }
            }
            if rec_keys(d).contains(k) {
                let i = choose|i: int| 0 <= i < rec_keys(d).len() && rec_keys(d)[i] == k;
                assert(rec_keys(recs)[i] == k);
            }
            if k == recs.last().0 {
                assert(rec_keys(recs)[recs.len() - 1] == k);
            }
        }
    }
}

/// With keys that differ, the entries that putting records replaces are
/// entries of the map, one for each record whose key the map has.
proof fn lemma_bulk_displaced_held<T>(m: Map<u32, T>, recs: Seq<(u32, T)>)
    requires
        keys_distinct(recs),
    ensures
        held(m, bulk_displaced(m, recs)),
        forall|i: int| 0 <= i < recs.len() && m.contains_key((#[trigger] recs[i]).0)
            ==> rec_keys(bulk_displaced(m, recs)).contains(recs[i].0),
    decreases recs.len(),
{
    if recs.len() > 0 {
        let d = recs.drop_last();
        let k = recs.last().0;
        assert(keys_distinct(d)) by {
            assert forall|i: int, j: int| 0 <= i < j < d.len() implies (#[trigger] d[i]).0 != (#[trigger] d[j]).0 by {
                assert(recs[i] == d[i] && recs[j] == d[j]);
            }
        }
        lemma_bulk_displaced_held(m, d);
        lemma_bulk_put_outside(m, d);
        assert(!rec_keys(d).contains(k)) by {
            if rec_keys(d).contains(k) {
                let i = choose|i: int| 0 <= i < rec_keys(d).len() && rec_keys(d)[i] == k;
                assert(recs[i].0 == d[i].0);
                assert(recs[recs.len() - 1].0 == k);
            }
        }
        let before = bulk_put(m, d);
        let dd = bulk_displaced(m, d);
        let tail = if before.contains_key(k) { seq![(k, before[k])] } else { Seq::<(u32, T)>::empty() };
        let all = bulk_displaced(m, recs);
        assert(all == dd + tail);
        assert forall|i: int| 0 <= i < all.len() implies m.contains_key((#[trigger] all[i]).0) && m[all[i].0] == all[i].1 by {
            if i < dd.len() {
                assert(all[i] == dd[i]);
            } else {
                assert(all[i] == tail[i - dd.len()]);
            }
        }
        assert forall|i: int| 0 <= i < recs.len() && m.contains_key((#[trigger] recs[i]).0)
            implies rec_keys(all).contains(recs[i].0) by {
            if i < d.len() {
                assert(d[i] == recs[i]);
                let j = choose|j: int| 0 <= j < rec_keys(dd).len() && rec_keys(dd)[j] == recs[i].0;
                assert(all[j] == dd[j]);
                assert(rec_keys(all)[j] == recs[i].0);
            } else {
                assert(recs[i] == recs.last());
                assert(all[dd.len() as int] == tail[0]);
                assert(rec_keys(all)[dd.len() as int] == k);
            }
        }
    }
}

/// Records put into a map, then their keys taken out and the entries they
/// replaced put back (or entries of the map that cover them): the map.
proof fn lemma_bulk_put_undone<T>(m: Map<u32, T>, recs: Seq<(u32, T)>, ks: Seq<u32>, back: Seq<(u32, T)>)
    requires
        ks == rec_keys(recs),
        held(m, back),
        forall|i: int| 0 <= i < recs.len() && m.contains_key((#[trigger] recs[i]).0) ==> rec_keys(back).contains(recs[i].0),
    ensures
        bulk_put(remove_keys(bulk_put(m, recs), ks), back) == m,
{
    lemma_bulk_put_outside(m, recs);
    let p = bulk_put(m, recs);
    lemma_remove_keys_ext(p, ks);
    let x = remove_keys(p, ks);
    lemma_bulk_put_agree(x, back, m);
    let r = bulk_put(x, back);
    assert forall|k: u32| #[trigger] r.contains_key(k) <==> m.contains_key(k) by {
        if m.contains_key(k) && ks.contains(k) {
            let i = choose|i: int| 0 <= i < ks.len() && ks[i] == k;
            assert(recs[i].0 == k);
            let j = choose|j: int| 0 <= j < rec_keys(back).len() && rec_keys(back)[j] == k;
            assert(back[j].0 == k);
        }
    }
    assert(r =~= m);
}

/// A map made from entries has finitely many keys.
proof fn lemma_entries_map_finite<T>(e: Seq<(u32, T)>)
    ensures
        entries_map(e).dom().finite(),
    decreases e.len(),
{
    reveal(entries_map);
    if e.len() == 0 {
        assert(entries_map(e).dom() =~= Set::<u32>::empty());
    } else {
        let d = e.drop_last();
        lemma_entries_map_finite(d);
        assert(entries_map(e).dom() =~= entries_map(d).dom().insert(e.last().0)) by {
            assert forall|k: u32| #[trigger] entries_map(e).dom().contains(k) <==> entries_map(d).dom().insert(e.last().0).contains(k) by {
                if exists|i: int| 0 <= i < e.len() && (#[trigger] e[i]).0 == k {
                    let i = choose|i: int| 0 <= i < e.len() && (#[trigger] e[i]).0 == k;
                    if i < d.len() {
                        assert(d[i] == e[i]);
                    }
                }
                if exists|i: int| 0 <= i < d.len() && (#[trigger] d[i]).0 == k {
                    let i = choose|i: int| 0 <= i < d.len() && (#[trigger] d[i]).0 == k;
                    assert(e[i] == d[i]);
                }
                if k == e.last().0 {
                    assert(e[e.len() - 1].0 == k);
                }
            }
        }
    }
}

/// Records put into a map with finitely many keys leave it so.
proof fn lemma_bulk_put_finite<T>(m: Map<u32, T>, recs: Seq<(u32, T)>)
    requires
        m.dom().finite(),
    ensures
        bulk_put(m, recs).dom().finite(),
    decreases recs.len(),
{
    if recs.len() > 0 {
        lemma_bulk_put_finite(m, recs.drop_last());
    }
}

/// A map with finitely many keys, some, has a highest.
proof fn lemma_finite_max_key<T>(m: Map<u32, T>)
    requires
        m.dom().finite(),
        !m.dom().is_empty(),
    ensures
        forall|k: u32| #[trigger] m.contains_key(k) ==> k <= max_key(m),
{
    let leq = |a: u32, b: u32| a <= b;
    assert(vstd::relations::total_ordering(leq));
    let s = m.dom();
    assert(s.len() > 0) by {
        let x = s.choose();
        assert(s.contains(x));
    }
    s.find_unique_maximal_ensures(leq);
    let top = s.find_unique_maximal(leq);
    s.lemma_maximal_equivalent_greatest(leq, top);
    assert forall|j: u32| #[trigger] m.contains_key(j) implies j <= top by {
        assert(s.contains(j));
        assert(leq(j, top));
    }
    assert(is_max_key(m, top));
    let c = choose|k: u32| is_max_key(m, k);
    assert(is_max_key(m, c));
}

/// The bars added after the bars of a map with finitely many keys start
/// under no key of it.
proof fn lemma_fill_fresh(
    bs: Seq<Bar>,
    base: Rhythm,
    bars: Map<u32, Bar>,
    notes: Map<u32, Seq<Note>>,
    tempos: Map<u32, Tempo>,
    dumpers: Map<u32, CtrlChg>,
    softs: Map<u32, CtrlChg>,
)
    requires
        bars.dom().finite(),
        fills(bs, base, bars, notes, tempos, dumpers, softs),
    ensures
        forall|i: int| 0 <= i < bs.len() ==> !bars.contains_key(#[trigger] bs[i].start_tick),
{
    let from = max_key(bars);
    let len = fill_len_of(base, bars);
    if !bars.dom().is_empty() {
        lemma_finite_max_key(bars);
    }
    assert forall|i: int| 0 <= i < bs.len() implies !bars.contains_key(#[trigger] bs[i].start_tick) by {
        assert(is_plain_bar(bs[i], from + (i + 1) * len));
        assert((i + 1) * len > 0) by (nonlinear_arith)
            requires i >= 0, len > 0;
        if bars.contains_key(bs[i].start_tick) {
            assert(!bars.dom().is_empty()) by {
                assert(bars.dom().contains(bs[i].start_tick));
            }
        }
    }
}

/// Notes added, then taken out again: the same notes under each tick.
proof fn lemma_notes_in_and_out(m: Map<u32, Seq<Note>>, ns: Seq<Note>)
    ensures
        forall|k: u32| #[trigger] notes_at_ms(notes_taken_out(bag_bulk_add(m, note_recs(ns)), ns), k) == notes_at_ms(m, k),
{
    let rn = note_recs(ns);
    let m1 = bag_bulk_add(m, rn);
    assert forall|k: u32| #[trigger] recs_at(rn, k).subset_of(notes_at_ms(m1, k)) by {
        lemma_bag_bulk_add_ms(m, rn, k);
    }
    lemma_notes_taken_out_bulk(m1, ns);
    lemma_bag_bulk_remove_ms(m1, rn);
    assert forall|k: u32| #[trigger] notes_at_ms(notes_taken_out(m1, ns), k) == notes_at_ms(m, k) by {
        lemma_bag_bulk_add_ms(m, rn, k);
        assert(notes_at_ms(m, k).add(recs_at(rn, k)).sub(recs_at(rn, k)) =~= notes_at_ms(m, k));
    }
}

/// Entries of a map whose items are under their start ticks are too.
proof fn lemma_held_keyed<T: HaveStartTick>(m: Map<u32, T>, d: Seq<(u32, T)>)
    requires
        map_keyed(m),
        held(m, d),
    ensures
        forall|j: int| 0 <= j < d.len() ==> (#[trigger] d[j]).1.start_tick_spec() == d[j].0,
{
    assert forall|j: int| 0 <= j < d.len() implies (#[trigger] d[j]).1.start_tick_spec() == d[j].0 by {
        assert(m.contains_key(d[j].0));
    }
}

/// Items put into a map of items kept under their start ticks, with keys
/// that differ, then undone: their keys taken out and the items they
/// replaced put back. The map is as it was.
proof fn lemma_items_put_undone<T: HaveStartTick>(m: Map<u32, T>, recs: Seq<(u32, T)>, ks: Seq<u32>, back: Seq<(u32, T)>)
    requires
        map_keyed(m),
        keys_distinct(recs),
        ks == rec_keys(recs),
        back.len() == bulk_displaced(m, recs).len(),
        forall|j: int| 0 <= j < back.len() ==> (#[trigger] back[j]) == (bulk_displaced(m, recs)[j].1.start_tick_spec(), bulk_displaced(m, recs)[j].1),
    ensures
        bulk_put(remove_keys(bulk_put(m, recs), ks), back) == m,
{
    let d = bulk_displaced(m, recs);
    lemma_bulk_displaced_held(m, recs);
    lemma_held_keyed(m, d);
    assert(back =~= d);
    lemma_bulk_put_undone(m, recs, ks, back);
}

/// Undoing an addition of items takes the project back, where the bars, the
/// tempo changes and each kind of pedal change added have ticks that differ:
/// the same items, the notes under each tick maybe in another order.
pub proof fn law_undo_bulk_add(before: ProjectImpl, to_add: Models, metadata: ModelChangeMetadata, after: ProjectImpl, cmd: ProjectCmd, back: ProjectImpl)
    requires
        before.wf(),
        keys_distinct(bar_recs(to_add.bars@)),
        keys_distinct(tempo_recs(to_add.tempos@)),
        keys_distinct(ctrl_recs(to_add.dumpers@)),
        keys_distinct(ctrl_recs(to_add.softs@)),
        bulk_added(before, to_add, metadata, after, cmd),
        undone(cmd, after, back),
    ensures
        same_contents_unordered(before, back),
{
    if let ProjectCmd::ModelChanged { added, removed, .. } = cmd {
        reveal_with_fuel(bag_bulk_add, 1);
        assert(note_recs(removed.notes@) =~= Seq::<(u32, Note)>::empty());
        lemma_notes_in_and_out(before.notes(), to_add.notes@);
        lemma_keyed(before.bars());
        lemma_keyed(before.tempos());
        lemma_keyed(before.dumpers());
        lemma_keyed(before.softs());
        let tr = tempo_recs(to_add.tempos@);
        assert(tempo_keys(added.tempos@) =~= rec_keys(tr));
        lemma_items_put_undone(entries_map(before.tempos()), tr, tempo_keys(added.tempos@), tempo_recs(removed.tempos@));
        let dr = ctrl_recs(to_add.dumpers@);
        assert(ctrl_keys(added.dumpers@) =~= rec_keys(dr));
        lemma_items_put_undone(entries_map(before.dumpers()), dr, ctrl_keys(added.dumpers@), ctrl_recs(removed.dumpers@));
        let sr = ctrl_recs(to_add.softs@);
        assert(ctrl_keys(added.softs@) =~= rec_keys(sr));
        lemma_items_put_undone(entries_map(before.softs()), sr, ctrl_keys(added.softs@), ctrl_recs(removed.softs@));
        // The bars: those given are undone as above, those added after the
        // last start where there was none.
        let n = to_add.bars@.len() as int;
        let br = bar_recs(to_add.bars@);
        let b = entries_map(before.bars());
        let x = bulk_put(b, br);
        let fill = added.bars@.skip(n);
        lemma_entries_map_finite(before.bars());
        lemma_bulk_put_finite(b, br);
        lemma_fill_fresh(fill, before.rhythm_spec(), x, after.notes(), entries_map(after.tempos()),
            entries_map(after.dumpers()), entries_map(after.softs()));
        lemma_bars_put_ext(x, fill);
        let all_keys = bar_keys(added.bars@);
        lemma_remove_keys_ext(bars_put(x, fill), all_keys);
        lemma_remove_keys_ext(x, rec_keys(br));
        assert(added.bars@ =~= to_add.bars@ + fill);
        assert forall|k: u32| #[trigger] all_keys.contains(k) <==> (rec_keys(br).contains(k) || bar_keys(fill).contains(k)) by {
            if all_keys.contains(k) {
                let i = choose|i: int| 0 <= i < all_keys.len() && all_keys[i] == k;
                if i < n {
                    assert(rec_keys(br)[i] == k);
                } else {
                    assert(bar_keys(fill)[i - n] == k);
                }
            }
            if rec_keys(br).contains(k) {
                let i = choose|i: int| 0 <= i < rec_keys(br).len() && rec_keys(br)[i] == k;
                assert(all_keys[i] == k);
            }
            if bar_keys(fill).contains(k) {
                let i = choose|i: int| 0 <= i < bar_keys(fill).len() && bar_keys(fill)[i] == k;
                assert(all_keys[i + n] == k);
            }
        }
        assert forall|k: u32| bar_keys(fill).contains(k) implies !x.contains_key(k) by {
            let i = choose|i: int| 0 <= i < bar_keys(fill).len() && bar_keys(fill)[i] == k;
            assert(fill[i].start_tick == k);
        }
        let lhs = remove_keys(bars_put(x, fill), all_keys);
        let rhs = remove_keys(x, rec_keys(br));
        assert forall|k: u32| #[trigger] lhs.contains_key(k) <==> rhs.contains_key(k) by {
            if bar_keys(fill).contains(k) {
                assert(!x.contains_key(k));
            }
        }
        assert forall|k: u32| #[trigger] lhs.contains_key(k) implies lhs[k] == rhs[k] by {
            assert(!bar_keys(fill).contains(k));
        }
        assert(lhs =~= rhs);
        lemma_items_put_undone(b, br, rec_keys(br), bar_recs(removed.bars@));
    }
}

/// The `from` keys of changes.
pub open spec fn from_keys<T>(ft: Seq<(u32, (u32, T))>) -> Seq<u32> {
    ft.map_values(|p: (u32, (u32, T))| p.0)
}

/// The new entries of changes.
pub open spec fn to_recs<T>(ft: Seq<(u32, (u32, T))>) -> Seq<(u32, T)> {
    ft.map_values(|p: (u32, (u32, T))| p.1)
}

/// Changes whose `from` keys differ and are all in the map take every
/// `from` key out and keep every new entry.
proof fn lemma_change_taken_all<T>(m: Map<u32, T>, ft: Seq<(u32, (u32, T))>)
    requires
        forall|i: int| 0 <= i < ft.len() ==> m.contains_key((#[trigger] ft[i]).0),
        forall|i: int, j: int| 0 <= i < j < ft.len() ==> (#[trigger] ft[i]).0 != (#[trigger] ft[j]).0,
    ensures
        change_taken(m, ft).0 == remove_keys(m, from_keys(ft)),
        change_taken(m, ft).1 == to_recs(ft),
    decreases ft.len(),
{
    if ft.len() == 0 {
        assert(to_recs(ft) =~= Seq::<(u32, T)>::empty());
        assert(from_keys(ft) =~= Seq::<u32>::empty());
    } else {
        let d = ft.drop_last();
        assert forall|i: int| 0 <= i < d.len() implies m.contains_key((#[trigger] d[i]).0) by {
            assert(d[i] == ft[i]);
        }
        assert forall|i: int, j: int| 0 <= i < j < d.len() implies (#[trigger] d[i]).0 != (#[trigger] d[j]).0 by {
            assert(d[i] == ft[i] && d[j] == ft[j]);
        }
        lemma_change_taken_all(m, d);
        assert(from_keys(ft).drop_last() =~= from_keys(d));
        assert(from_keys(ft).last() == ft.last().0);
        assert(to_recs(ft) =~= to_recs(d).push(ft.last().1));
        let k = ft.last().0;
        lemma_remove_keys_ext(m, from_keys(d));
        assert(!from_keys(d).contains(k)) by {
            if from_keys(d).contains(k) {
                let i = choose|i: int| 0 <= i < from_keys(d).len() && from_keys(d)[i] == k;
                assert(ft[i] == d[i]);
                assert(ft[ft.len() - 1].0 == k);
            }
        }
        assert(m.contains_key(ft[ft.len() - 1].0));
    }
}

/// Changes of items whose `from` items are all in the map under distinct
/// keys and whose new items have distinct keys, then undone: the new keys
/// taken out, then the `from` items and the items the new ones replaced put
/// back. The map is as it was.
proof fn lemma_change_undone<T: HaveStartTick>(m: Map<u32, T>, ft: Seq<(u32, (u32, T))>, froms: Seq<(u32, T)>, back: Seq<(u32, T)>)
    requires
        map_keyed(m),
        forall|i: int, j: int| 0 <= i < j < ft.len() ==> (#[trigger] ft[i]).0 != (#[trigger] ft[j]).0,
        keys_distinct(to_recs(ft)),
        froms.len() == ft.len(),
        forall|i: int| 0 <= i < ft.len() ==> (#[trigger] froms[i]).0 == ft[i].0,
        held(m, froms),
        back.len() == froms.len() + change_displaced(m, ft).len(),
        forall|i: int| 0 <= i < froms.len() ==> back[i] == #[trigger] froms[i],
        forall|j: int| 0 <= j < change_displaced(m, ft).len() ==> #[trigger] back[froms.len() + j]
            == (change_displaced(m, ft)[j].1.start_tick_spec(), change_displaced(m, ft)[j].1),
    ensures
        bulk_put(remove_keys(changed(m, ft), rec_keys(to_recs(ft))), back) == m,
{
    assert forall|i: int| 0 <= i < ft.len() implies m.contains_key((#[trigger] ft[i]).0) by {
        assert(froms[i].0 == ft[i].0);
    }
    lemma_change_taken_all(m, ft);
    let fk = from_keys(ft);
    let tr = to_recs(ft);
    let y = remove_keys(m, fk);
    lemma_remove_keys_ext(m, fk);
    let d = bulk_displaced(y, tr);
    lemma_bulk_displaced_held(y, tr);
    assert(change_displaced(m, ft) == d);
    assert forall|j: int| 0 <= j < d.len() implies back[froms.len() + j] == #[trigger] d[j] by {
        assert(y.contains_key(d[j].0));
        assert(m.contains_key(d[j].0));
    }
    assert(back =~= froms + d) by {
        assert forall|i: int| 0 <= i < back.len() implies back[i] == (froms + d)[i] by {
            if i < froms.len() {
                assert(back[i] == froms[i]);
            } else {
                assert(back[froms.len() + (i - froms.len())] == d[i - froms.len()]);
            }
        }
    }
    let x = bulk_put(y, tr);
    lemma_bulk_put_outside(y, tr);
    let ka = rec_keys(tr);
    let z = remove_keys(x, ka);
    lemma_remove_keys_ext(x, ka);
    assert forall|k: u32| #[trigger] z.contains_key(k) implies m.contains_key(k) && z[k] == m[k] by {
        assert(!ka.contains(k));
    }
    assert forall|i: int| 0 <= i < back.len() implies m.contains_key((#[trigger] back[i]).0) && m[back[i].0] == back[i].1 by {
        if i < froms.len() {
            assert(back[i] == froms[i]);
        } else {
            assert(back[i] == d[i - froms.len()]);
            assert(y.contains_key(d[i - froms.len()].0));
        }
    }
    lemma_bulk_put_agree(z, back, m);
    let r = bulk_put(z, back);
    assert forall|k: u32| #[trigger] r.contains_key(k) <==> m.contains_key(k) by {
        if m.contains_key(k) && !z.contains_key(k) {
            if fk.contains(k) {
                let i = choose|i: int| 0 <= i < fk.len() && fk[i] == k;
                assert(back[i] == froms[i]);
                assert(back[i].0 == k);
            } else {
                assert(y.contains_key(k));
                assert(ka.contains(k));
                let i = choose|i: int| 0 <= i < ka.len() && ka[i] == k;
                assert(tr[i].0 == k);
                let j = choose|j: int| 0 <= j < rec_keys(d).len() && rec_keys(d)[j] == k;
                assert(back[froms.len() + j] == d[j]);
                assert(back[froms.len() + j].0 == k);
            }
        }
    }
    assert(r =~= m);
}

/// The `from` records of changes of notes.
pub open spec fn change_froms(nc: Seq<((u32, Note), (u32, Note))>) -> Seq<(u32, Note)> {
    nc.map_values(|p: ((u32, Note), (u32, Note))| p.0)
}

/// The new records of changes of notes.
pub open spec fn change_tos(nc: Seq<((u32, Note), (u32, Note))>) -> Seq<(u32, Note)> {
    nc.map_values(|p: ((u32, Note), (u32, Note))| p.1)
}

/// Changes of notes whose `from` notes are all there: every `from` note is
/// taken out and every new note kept, as removing the `from` notes one after
/// the other would.
proof fn lemma_bag_change_taken_all(m: Map<u32, Seq<Note>>, nc: Seq<((u32, Note), (u32, Note))>)
    requires
        forall|k: u32| #[trigger] recs_at(change_froms(nc), k).subset_of(notes_at_ms(m, k)),
    ensures
        bag_change_taken(m, nc).0 == bag_bulk_remove(m, change_froms(nc)).0,
        bag_change_taken(m, nc).1 == change_tos(nc),
    decreases nc.len(),
{
    let fr = change_froms(nc);
    let tr = change_tos(nc);
    if nc.len() == 0 {
        assert(tr =~= Seq::<(u32, Note)>::empty());
    } else {
        let d = nc.drop_last();
        let fd = change_froms(d);
        assert(fr.drop_last() =~= fd);
        assert(fr.last() == nc.last().0);
        assert(tr =~= change_tos(d).push(nc.last().1));
        let (t, n) = nc.last().0;
        assert forall|k: u32| #[trigger] recs_at(fd, k).subset_of(notes_at_ms(m, k)) by {
            assert(recs_at(fr, k).subset_of(notes_at_ms(m, k)));
        }
        lemma_bag_change_taken_all(m, d);
        lemma_bag_bulk_remove_ms(m, fd);
        let m1 = bag_bulk_remove(m, fd).0;
        assert(recs_at(fr, t).subset_of(notes_at_ms(m, t)));
        assert(recs_at(fr, t).count(n) == recs_at(fd, t).count(n) + 1);
        assert(notes_at_ms(m1, t) == notes_at_ms(m, t).sub(recs_at(fd, t)));
        lemma_bag_remove_ms(m1, t, n, t);
    }
}

/// Keys taken out of a map with finitely many keys leave it so.
proof fn lemma_remove_keys_finite<T>(m: Map<u32, T>, ks: Seq<u32>)
    requires
        m.dom().finite(),
    ensures
        remove_keys(m, ks).dom().finite(),
    decreases ks.len(),
{
    if ks.len() > 0 {
        lemma_remove_keys_finite(m, ks.drop_last());
    }
}

/// Changes that can be undone: the `from` items all in the project (the
/// notes each as often as listed, the other items under distinct ticks),
/// the new items of each kind but notes under distinct ticks.
pub open spec fn changes_undoable(p: ProjectImpl, ft: ModelChanges) -> bool {
    &&& forall|k: u32| #[trigger] recs_at(note_recs(befores(ft.notes@)), k).subset_of(notes_at_ms(p.notes(), k))
    &&& held(entries_map(p.bars()), bar_recs(befores(ft.bars@)))
    &&& held(entries_map(p.tempos()), tempo_recs(befores(ft.tempos@)))
    &&& held(entries_map(p.dumpers()), ctrl_recs(befores(ft.dumpers@)))
    &&& held(entries_map(p.softs()), ctrl_recs(befores(ft.softs@)))
    &&& keys_distinct(bar_recs(befores(ft.bars@))) && keys_distinct(bar_recs(afters(ft.bars@)))
    &&& keys_distinct(tempo_recs(befores(ft.tempos@))) && keys_distinct(tempo_recs(afters(ft.tempos@)))
    &&& keys_distinct(ctrl_recs(befores(ft.dumpers@))) && keys_distinct(ctrl_recs(afters(ft.dumpers@)))
    &&& keys_distinct(ctrl_recs(befores(ft.softs@))) && keys_distinct(ctrl_recs(afters(ft.softs@)))
}

/// Undoing changes of items takes the project back, where the changes can
/// be undone (see `changes_undoable`): the same items, the notes under each
/// tick maybe in another order.
pub proof fn law_undo_change(before: ProjectImpl, from_to: ModelChanges, metadata: ModelChangeMetadata, after: ProjectImpl, cmd: ProjectCmd, back: ProjectImpl)
    requires
        before.wf(),
        changes_undoable(before, from_to),
        changes_done(before, from_to, metadata, after, cmd),
        undone(cmd, after, back),
    ensures
        same_contents_unordered(before, back),
{
    if let ProjectCmd::ModelChanged { added, removed, .. } = cmd {
        // The notes.
        let nc = note_changes(from_to.notes@);
        assert(change_froms(nc) =~= note_recs(befores(from_to.notes@)));
        assert(change_tos(nc) =~= note_recs(afters(from_to.notes@)));
        lemma_bag_change_taken_all(before.notes(), nc);
        lemma_notes_swap_and_back(before.notes(), befores(from_to.notes@), afters(from_to.notes@));
        lemma_keyed(before.bars());
        lemma_keyed(before.tempos());
        lemma_keyed(before.dumpers());
        lemma_keyed(before.softs());
        // The tempo and pedal changes.
        let tc = tempo_changes(from_to.tempos@);
        assert(to_recs(tc) =~= tempo_recs(afters(from_to.tempos@)));
        assert(tempo_keys(added.tempos@) =~= rec_keys(to_recs(tc)));
        assert forall|i: int, j: int| 0 <= i < j < tc.len() implies (#[trigger] tc[i]).0 != (#[trigger] tc[j]).0 by {
            assert(tempo_recs(befores(from_to.tempos@))[i].0 == tc[i].0);
            assert(tempo_recs(befores(from_to.tempos@))[j].0 == tc[j].0);
        }
        lemma_change_undone(entries_map(before.tempos()), tc, tempo_recs(befores(from_to.tempos@)), tempo_recs(removed.tempos@));
        let dc = ctrl_changes(from_to.dumpers@);
        assert(to_recs(dc) =~= ctrl_recs(afters(from_to.dumpers@)));
        assert(ctrl_keys(added.dumpers@) =~= rec_keys(to_recs(dc)));
        assert forall|i: int, j: int| 0 <= i < j < dc.len() implies (#[trigger] dc[i]).0 != (#[trigger] dc[j]).0 by {
            assert(ctrl_recs(befores(from_to.dumpers@))[i].0 == dc[i].0);
            assert(ctrl_recs(befores(from_to.dumpers@))[j].0 == dc[j].0);
        }
        lemma_change_undone(entries_map(before.dumpers()), dc, ctrl_recs(befores(from_to.dumpers@)), ctrl_recs(removed.dumpers@));
        let sc = ctrl_changes(from_to.softs@);
        assert(to_recs(sc) =~= ctrl_recs(afters(from_to.softs@)));
        assert(ctrl_keys(added.softs@) =~= rec_keys(to_recs(sc)));
        assert forall|i: int, j: int| 0 <= i < j < sc.len() implies (#[trigger] sc[i]).0 != (#[trigger] sc[j]).0 by {
            assert(ctrl_recs(befores(from_to.softs@))[i].0 == sc[i].0);
            assert(ctrl_recs(befores(from_to.softs@))[j].0 == sc[j].0);
        }
        lemma_change_undone(entries_map(before.softs()), sc, ctrl_recs(befores(from_to.softs@)), ctrl_recs(removed.softs@));
        // The bars: the changed ones as above, those added after the last
        // start where there was none.
        let bc = bar_changes(from_to.bars@);
        let n = from_to.bars@.len() as int;
        let b = entries_map(before.bars());
        assert forall|i: int| 0 <= i < bc.len() implies b.contains_key((#[trigger] bc[i]).0) by {
            assert(bar_recs(befores(from_to.bars@))[i].0 == bc[i].0);
        }
        assert forall|i: int, j: int| 0 <= i < j < bc.len() implies (#[trigger] bc[i]).0 != (#[trigger] bc[j]).0 by {
            assert(bar_recs(befores(from_to.bars@))[i].0 == bc[i].0);
            assert(bar_recs(befores(from_to.bars@))[j].0 == bc[j].0);
        }
        lemma_change_taken_all(b, bc);
        let x = changed(b, bc);
        let fill = added.bars@.skip(n);
        let tr = to_recs(bc);
        assert(tr =~= bar_recs(afters(from_to.bars@)));
        lemma_entries_map_finite(before.bars());
        lemma_remove_keys_finite(b, from_keys(bc));
        lemma_bulk_put_finite(remove_keys(b, from_keys(bc)), tr);
        lemma_fill_fresh(fill, before.rhythm_spec(), x, after.notes(), entries_map(after.tempos()),
            entries_map(after.dumpers()), entries_map(after.softs()));
        lemma_bars_put_ext(x, fill);
        let all_keys = bar_keys(added.bars@);
        lemma_remove_keys_ext(bars_put(x, fill), all_keys);
        lemma_remove_keys_ext(x, rec_keys(tr));
        assert(added.bars@ =~= afters(from_to.bars@) + fill);
        assert forall|k: u32| #[trigger] all_keys.contains(k) <==> (rec_keys(tr).contains(k) || bar_keys(fill).contains(k)) by {
            if all_keys.contains(k) {
                let i = choose|i: int| 0 <= i < all_keys.len() && all_keys[i] == k;
                if i < n {
                    assert(rec_keys(tr)[i] == k);
                } else {
                    assert(bar_keys(fill)[i - n] == k);
                }
            }
            if rec_keys(tr).contains(k) {
                let i = choose|i: int| 0 <= i < rec_keys(tr).len() && rec_keys(tr)[i] == k;
                assert(all_keys[i] == k);
            }
            if bar_keys(fill).contains(k) {
                let i = choose|i: int| 0 <= i < bar_keys(fill).len() && bar_keys(fill)[i] == k;
                assert(all_keys[i + n] == k);
            }
        }
        assert forall|k: u32| bar_keys(fill).contains(k) implies !x.contains_key(k) by {
            let i = choose|i: int| 0 <= i < bar_keys(fill).len() && bar_keys(fill)[i] == k;
            assert(fill[i].start_tick == k);
        }
        let lhs = remove_keys(bars_put(x, fill), all_keys);
        let rhs = remove_keys(x, rec_keys(tr));
        assert forall|k: u32| #[trigger] lhs.contains_key(k) <==> rhs.contains_key(k) by {
            if bar_keys(fill).contains(k) {
                assert(!x.contains_key(k));
            }
        }
        assert forall|k: u32| #[trigger] lhs.contains_key(k) implies lhs[k] == rhs[k] by {
            assert(!bar_keys(fill).contains(k));
        }
        assert(lhs =~= rhs);
        lemma_change_undone(b, bc, bar_recs(befores(from_to.bars@)), bar_recs(removed.bars@));
    }
}

/// A bag of notes as a project keeps it: finitely many ticks, at least one
/// note under each, and each note under the tick at which it sounds.
pub open spec fn notes_wf(m: Map<u32, Seq<Note>>) -> bool {
    &&& bag_nonempty(m)
    &&& forall|k: u32, j: int| #![trigger m[k][j]] m.contains_key(k) && 0 <= j < m[k].len() ==> note_start_tick(m[k][j]) == k
}

/// Finitely many ticks, at least one note under each.
pub open spec fn bag_nonempty(m: Map<u32, Seq<Note>>) -> bool {
    &&& m.dom().finite()
    &&& forall|k: u32| #[trigger] m.contains_key(k) ==> m[k].len() > 0
}

/// Records of notes, each under the tick at which the note sounds.
pub open spec fn recs_keyed(recs: Seq<(u32, Note)>) -> bool {
    forall|i: int| 0 <= i < recs.len() ==> (#[trigger] recs[i]).0 == note_start_tick(recs[i].1)
}

/// Adding a note under the tick at which it sounds keeps a bag as a project
/// keeps it.
proof fn lemma_bag_add_wf(m: Map<u32, Seq<Note>>, n: Note)
    requires
        notes_wf(m),
    ensures
        notes_wf(bag_add(m, note_start_tick(n), n)),
{
    let k = note_start_tick(n);
    let r = bag_add(m, k, n);
    assert forall|x: u32, j: int| #![trigger r[x][j]] r.contains_key(x) && 0 <= j < r[x].len() implies note_start_tick(r[x][j]) == x by {
        if x == k && m.contains_key(k) && j < m[k].len() {
            assert(r[x][j] == m[k][j]);
        }
    }
}

/// Removing a note keeps a bag as a project keeps it.
proof fn lemma_bag_remove_wf(m: Map<u32, Seq<Note>>, k: u32, n: Note)
    requires
        notes_wf(m),
    ensures
        notes_wf(bag_remove(m, k, n).0),
{
    if m.contains_key(k) && m[k].contains(n) {
        lemma_first_index(m[k], n);
        let i = first_index(m[k], n);
        let rest = m[k].remove(i);
        let r = bag_remove(m, k, n).0;
        assert forall|x: u32, j: int| #![trigger r[x][j]] r.contains_key(x) && 0 <= j < r[x].len() implies note_start_tick(r[x][j]) == x by {
            if x == k {
                if j < i {
                    assert(rest[j] == m[k][j]);
                } else {
                    assert(rest[j] == m[k][j + 1]);
                }
            }
        }
    }
}

/// Adding records each under the tick at which its note sounds keeps a bag
/// as a project keeps it.
proof fn lemma_bag_bulk_add_wf(m: Map<u32, Seq<Note>>, recs: Seq<(u32, Note)>)
    requires
        notes_wf(m),
        recs_keyed(recs),
    ensures
        notes_wf(bag_bulk_add(m, recs)),
    decreases recs.len(),
{
    if recs.len() > 0 {
        let d = recs.drop_last();
        assert(recs_keyed(d)) by {
            assert forall|i: int| 0 <= i < d.len() implies (#[trigger] d[i]).0 == note_start_tick(d[i].1) by {
                assert(d[i] == recs[i]);
            }
        }
        lemma_bag_bulk_add_wf(m, d);
        assert(recs.last() == recs[recs.len() - 1]);
        lemma_bag_add_wf(bag_bulk_add(m, d), recs.last().1);
    }
}

/// Removing records one after the other keeps a bag as a project keeps it.
proof fn lemma_bag_bulk_remove_wf(m: Map<u32, Seq<Note>>, recs: Seq<(u32, Note)>)
    requires
        notes_wf(m),
    ensures
        notes_wf(bag_bulk_remove(m, recs).0),
    decreases recs.len(),
{
    if recs.len() > 0 {
        lemma_bag_bulk_remove_wf(m, recs.drop_last());
        lemma_bag_remove_wf(bag_bulk_remove(m, recs.drop_last()).0, recs.last().0, recs.last().1);
    }
}

/// The records of notes are under the ticks at which they sound.
proof fn lemma_note_recs_keyed(ns: Seq<Note>)
    ensures
        recs_keyed(note_recs(ns)),
{
}

/// Taking notes out keeps a bag as a project keeps it.
proof fn lemma_notes_taken_out_wf(m: Map<u32, Seq<Note>>, ns: Seq<Note>)
    requires
        notes_wf(m),
    ensures
        notes_wf(notes_taken_out(m, ns)),
{
    lemma_notes_taken_out_bulk(m, ns);
    lemma_bag_bulk_remove_wf(m, note_recs(ns));
}

/// The first step of a change of notes keeps a bag as a project keeps it,
/// and keeps new records each under the tick at which its note sounds.
proof fn lemma_bag_change_taken_wf(m: Map<u32, Seq<Note>>, nc: Seq<((u32, Note), (u32, Note))>)
    requires
        notes_wf(m),
        recs_keyed(change_tos(nc)),
    ensures
        notes_wf(bag_change_taken(m, nc).0),
        recs_keyed(bag_change_taken(m, nc).1),
    decreases nc.len(),
{
    if nc.len() > 0 {
        let d = nc.drop_last();
        assert(recs_keyed(change_tos(d))) by {
            assert forall|i: int| 0 <= i < change_tos(d).len() implies (#[trigger] change_tos(d)[i]).0 == note_start_tick(change_tos(d)[i].1) by {
                assert(change_tos(d)[i] == change_tos(nc)[i]);
            }
        }
        lemma_bag_change_taken_wf(m, d);
        let (m1, taken) = bag_change_taken(m, d);
        lemma_bag_remove_wf(m1, nc.last().0.0, nc.last().0.1);
        assert(change_tos(nc)[nc.len() - 1] == nc.last().1);
        let (m2, r) = bag_remove(m1, nc.last().0.0, nc.last().0.1);
        if r is Some {
            let t2 = taken.push(nc.last().1);
            assert forall|i: int| 0 <= i < t2.len() implies (#[trigger] t2[i]).0 == note_start_tick(t2[i].1) by {
                if i < taken.len() {
                    assert(t2[i] == taken[i]);
                }
            }
        }
    }
}

/// A bag with finitely many ticks, some, has a lowest: the first tick.
proof fn lemma_first_tick(m: Map<u32, Seq<Note>>)
    requires
        m.dom().finite(),
        !m.dom().is_empty(),
    ensures
        m.contains_key(first_tick(m)),
        forall|j: u32| #[trigger] m.contains_key(j) ==> first_tick(m) <= j,
{
    let leq = |a: u32, b: u32| a <= b;
    assert(vstd::relations::total_ordering(leq));
    let s = m.dom();
    assert(s.len() > 0) by {
        let x = s.choose();
        assert(s.contains(x));
    }
    s.find_unique_minimal_ensures(leq);
    let low = s.find_unique_minimal(leq);
    s.lemma_minimal_equivalent_least(leq, low);
    assert forall|j: u32| #[trigger] m.contains_key(j) implies low <= j by {
        assert(s.contains(j));
        assert(leq(low, j));
    }
    assert(m.contains_key(low) && forall|j: u32| #[trigger] m.contains_key(j) ==> low <= j);
}

/// The notes of a sequence as records under one tick.
pub open spec fn under_tick(k: u32, s: Seq<Note>) -> Seq<(u32, Note)> {
    s.map_values(|n: Note| (k, n))
}

/// Notes added under a tick that a bag does not have: the bag with the
/// notes under the tick.
proof fn lemma_bag_bulk_add_one_tick(x: Map<u32, Seq<Note>>, k: u32, s: Seq<Note>)
    requires
        !x.contains_key(k),
        s.len() > 0,
    ensures
        bag_bulk_add(x, under_tick(k, s)) == x.insert(k, s),
    decreases s.len(),
{
    let d = s.drop_last();
    let u = under_tick(k, s);
    assert(u.drop_last() =~= under_tick(k, d));
    assert(u.last() == (k, s.last()));
    assert(bag_bulk_add(x, u) == bag_add(bag_bulk_add(x, under_tick(k, d)), k, s.last()));
    if d.len() == 0 {
        assert(under_tick(k, d) =~= Seq::<(u32, Note)>::empty());
        assert(bag_bulk_add(x, under_tick(k, d)) == x);
        assert(seq![s.last()] =~= s);
    } else {
        lemma_bag_bulk_add_one_tick(x, k, d);
        assert(d.push(s.last()) =~= s);
        assert(x.insert(k, d).insert(k, d.push(s.last())) =~= x.insert(k, s));
    }
}

/// Notes added one after the other from two runs of records.
proof fn lemma_bag_bulk_add_concat(x: Map<u32, Seq<Note>>, a: Seq<(u32, Note)>, b: Seq<(u32, Note)>)
    ensures
        bag_bulk_add(x, a + b) == bag_bulk_add(bag_bulk_add(x, a), b),
    decreases b.len(),
{
    if b.len() == 0 {
        assert(a + b =~= a);
    } else {
        lemma_bag_bulk_add_concat(x, a, b.drop_last());
        assert((a + b).drop_last() =~= a + b.drop_last());
        assert((a + b).last() == b.last());
    }
}

/// A bag as a project keeps it, with some tick, without its first tick: a
/// smaller bag as a project keeps it, listed after the notes of that tick.
proof fn lemma_bag_without_first(m: Map<u32, Seq<Note>>)
    requires
        bag_nonempty(m),
        m.dom().len() > 0,
    ensures
        m.contains_key(first_tick(m)),
        bag_nonempty(m.remove(first_tick(m))),
        m.remove(first_tick(m)).dom().len() < m.dom().len(),
        bag_listing(m) == under_tick(first_tick(m), m[first_tick(m)]) + bag_listing(m.remove(first_tick(m))),
{
    assert(!m.dom().is_empty()) by {
        if m.dom().is_empty() {
            assert(m.dom() =~= Set::<u32>::empty());
        }
    }
    lemma_first_tick(m);
    let k = first_tick(m);
    let rest = m.remove(k);
    assert(rest.dom() =~= m.dom().remove(k));
}

/// A bag with no tick is empty and lists nothing.
proof fn lemma_bag_no_tick(m: Map<u32, Seq<Note>>)
    requires
        m.dom().finite(),
        m.dom().len() == 0,
    ensures
        m == Map::<u32, Seq<Note>>::empty(),
        bag_listing(m) == Seq::<(u32, Note)>::empty(),
{
    assert(m.dom() =~= Set::<u32>::empty()) by {
        if exists|k: u32| m.dom().contains(k) {
            let k = choose|k: u32| m.dom().contains(k);
            assert(m.dom().remove(k).len() + 1 == m.dom().len());
        }
    }
    assert(m =~= Map::<u32, Seq<Note>>::empty());
}

/// A bag with no tick, listed and added to a bag: that bag.
proof fn lemma_bag_listing_added_none(x: Map<u32, Seq<Note>>, m: Map<u32, Seq<Note>>)
    requires
        m.dom().finite(),
        m.dom().len() == 0,
    ensures
        bag_bulk_add(x, bag_listing(m)) == x.union_prefer_right(m),
{
    lemma_bag_no_tick(m);
    assert(x.union_prefer_right(m) =~= x);
}

/// The step of a listing added to a bag: the notes of the first tick, then
/// the rest.
proof fn lemma_bag_listing_added_step(x: Map<u32, Seq<Note>>, m: Map<u32, Seq<Note>>)
    requires
        bag_nonempty(m),
        m.dom().len() > 0,
        forall|k: u32| #[trigger] x.contains_key(k) ==> !m.contains_key(k),
        bag_bulk_add(x.insert(first_tick(m), m[first_tick(m)]), bag_listing(m.remove(first_tick(m))))
            == x.insert(first_tick(m), m[first_tick(m)]).union_prefer_right(m.remove(first_tick(m))),
    ensures
        bag_bulk_add(x, bag_listing(m)) == x.union_prefer_right(m),
{
    lemma_bag_without_first(m);
    let k = first_tick(m);
    let rest = m.remove(k);
    let h = under_tick(k, m[k]);
    let lr = bag_listing(rest);
    let y = x.insert(k, m[k]);
    let whole = bag_listing(m);
    assert(whole == h + lr);
    lemma_bag_bulk_add_concat(x, h, lr);
    lemma_bag_bulk_add_one_tick(x, k, m[k]);
    lemma_union_first(x, m, k);
}

/// A bag joined with another, whose tick `k` it does not have: the first
/// bag with the notes under `k`, joined with the rest.
proof fn lemma_union_first(x: Map<u32, Seq<Note>>, m: Map<u32, Seq<Note>>, k: u32)
    requires
        m.contains_key(k),
    ensures
        x.insert(k, m[k]).union_prefer_right(m.remove(k)) == x.union_prefer_right(m),
{
    assert(x.insert(k, m[k]).union_prefer_right(m.remove(k)) =~= x.union_prefer_right(m));
}

/// The listing of a bag as a project keeps it, added to a bag with other
/// ticks: the two bags together.
proof fn lemma_bag_listing_added(x: Map<u32, Seq<Note>>, m: Map<u32, Seq<Note>>)
    requires
        bag_nonempty(m),
        forall|k: u32| #[trigger] x.contains_key(k) ==> !m.contains_key(k),
    ensures
        bag_bulk_add(x, bag_listing(m)) == x.union_prefer_right(m),
    decreases m.dom().len(),
{
    if m.dom().len() == 0 {
        lemma_bag_listing_added_none(x, m);
    } else {
        lemma_bag_without_first(m);
        let k = first_tick(m);
        let rest = m.remove(k);
        let y = x.insert(k, m[k]);
        assert forall|a: u32| #[trigger] y.contains_key(a) implies !rest.contains_key(a) by {}
        lemma_bag_listing_added(y, rest);
        lemma_bag_listing_added_step(x, m);
    }
}

/// The notes of the listing of a bag as a project keeps it, each under the
/// tick at which it sounds, are the listing.
#[verifier::spinoff_prover]
#[verifier::rlimit(30)]
proof fn lemma_bag_listing_keyed(m: Map<u32, Seq<Note>>)
    requires
        notes_wf(m),
    ensures
        note_recs(bag_listing(m).map_values(|e: (u32, Note)| e.1)) == bag_listing(m),
    decreases m.dom().len(),
{
    let l = bag_listing(m);
    if m.dom().len() == 0 {
        lemma_bag_no_tick(m);
        assert(note_recs(l.map_values(|e: (u32, Note)| e.1)) =~= l);
    } else {
        lemma_bag_without_first(m);
        let k = first_tick(m);
        let rest = m.remove(k);
        assert forall|a: u32, j: int| #![trigger rest[a][j]] rest.contains_key(a) && 0 <= j < rest[a].len() implies note_start_tick(rest[a][j]) == a by {
            assert(rest[a] == m[a]);
            assert(note_start_tick(m[a][j]) == a);
        }
        lemma_bag_listing_keyed(rest);
        let h = under_tick(k, m[k]);
        let lr = bag_listing(rest);
        assert(l == h + lr);
        let vals = l.map_values(|e: (u32, Note)| e.1);
        let rvals = lr.map_values(|e: (u32, Note)| e.1);
        assert(note_recs(vals) =~= l) by {
            assert forall|i: int| 0 <= i < l.len() implies #[trigger] note_recs(vals)[i] == l[i] by {
                if i < h.len() {
                    assert(l[i] == h[i]);
                    assert(note_start_tick(m[k][i]) == k);
                } else {
                    assert(l[i] == lr[i - h.len()]);
                    assert(note_recs(rvals)[i - h.len()] == lr[i - h.len()]);
                }
            }
        }
    }
}

/// The notes of the listing of a bag as a project keeps it, added to an
/// empty bag under the ticks at which they sound: the bag.
proof fn lemma_listing_reads_back(m: Map<u32, Seq<Note>>)
    requires
        notes_wf(m),
    ensures
        bag_bulk_add(Map::empty(), note_recs(bag_listing(m).map_values(|e: (u32, Note)| e.1))) == m,
{
    lemma_bag_listing_keyed(m);
    assert forall|k: u32| #[trigger] Map::<u32, Seq<Note>>::empty().contains_key(k) implies !m.contains_key(k) by {}
    lemma_bag_listing_added(Map::empty(), m);
    assert(Map::<u32, Seq<Note>>::empty().union_prefer_right(m) =~= m);
}

/// Entries with increasing keys put into an empty map, one after the other:
/// the map of the entries.
proof fn lemma_bulk_put_entries<T>(e: Seq<(u32, T)>)
    requires
        keys_increasing(e),
    ensures
        bulk_put(Map::empty(), e) == entries_map(e),
    decreases e.len(),
{
    if e.len() == 0 {
        lemma_entries_map_empty(e);
    } else {
        lemma_entries_map_drop_last(e);
        lemma_bulk_put_entries(e.drop_last());
    }
}

/// A project taken out as it is saved and read back is the same project:
/// the same settings, the same notes under each tick in the same order,
/// and the same other items.
pub proof fn law_exported_reads_back(p: ProjectImpl, e: ExportedProject, q: ProjectImpl)
    requires
        p.wf(),
        exported_from(p, e),
        imported_from(e, q),
    ensures
        same_contents(p, q),
{
    lemma_listing_reads_back(p.notes());
    assert(bar_recs(rec_values(p.bars())) =~= p.bars());
    assert(tempo_recs(rec_values(p.tempos())) =~= p.tempos());
    assert(ctrl_recs(rec_values(p.dumpers())) =~= p.dumpers());
    assert(ctrl_recs(rec_values(p.softs())) =~= p.softs());
    lemma_bulk_put_entries(p.bars());
    lemma_bulk_put_entries(p.tempos());
    lemma_bulk_put_entries(p.dumpers());
    lemma_bulk_put_entries(p.softs());
}

/// Notes removed one after the other, each where it is there: each tick
/// loses the notes of its records, as far as it has them.
proof fn lemma_bag_bulk_remove_ms_any(m: Map<u32, Seq<Note>>, recs: Seq<(u32, Note)>)
    ensures
        forall|j: u32| #[trigger] notes_at_ms(bag_bulk_remove(m, recs).0, j) == notes_at_ms(m, j).sub(recs_at(recs, j)),
    decreases recs.len(),
{
    broadcast use vstd::seq_lib::group_to_multiset_ensures;
    if recs.len() == 0 {
        assert forall|j: u32| #[trigger] notes_at_ms(bag_bulk_remove(m, recs).0, j) == notes_at_ms(m, j).sub(recs_at(recs, j)) by {
            assert(notes_at_ms(m, j).sub(Multiset::empty()) =~= notes_at_ms(m, j));
        }
    } else {
        let d = recs.drop_last();
        let (t, n) = recs.last();
        lemma_bag_bulk_remove_ms_any(m, d);
        let m1 = bag_bulk_remove(m, d).0;
        assert forall|j: u32| #[trigger] notes_at_ms(bag_bulk_remove(m, recs).0, j) == notes_at_ms(m, j).sub(recs_at(recs, j)) by {
            assert(notes_at_ms(m1, j) == notes_at_ms(m, j).sub(recs_at(d, j)));
            if notes_at_ms(m1, t).count(n) > 0 {
                lemma_bag_remove_ms(m1, t, n, j);
                if j == t {
                    assert(notes_at_ms(m, j).sub(recs_at(d, j)).remove(n) =~= notes_at_ms(m, j).sub(recs_at(recs, j)));
                }
            } else {
                assert(!(m1.contains_key(t) && m1[t].contains(n))) by {
                    if m1.contains_key(t) && m1[t].contains(n) {
                        assert(notes_at(m1, t) == m1[t]);
                    }
                }
                assert(bag_bulk_remove(m, recs).0 == m1);
                if j == t {
                    assert(notes_at_ms(m, j).sub(recs_at(d, j)) =~= notes_at_ms(m, j).sub(recs_at(recs, j)));
                }
            }
        }
    }
}

/// Doing one command to projects with the same contents gives projects with
/// the same contents.
proof fn lemma_redone_congruent(cmd: ProjectCmd, a: ProjectImpl, a2: ProjectImpl, b: ProjectImpl, b2: ProjectImpl)
    requires
        same_contents_unordered(a, b),
        redone(cmd, a, a2),
        redone(cmd, b, b2),
    ensures
        same_contents_unordered(a2, b2),
{
    if let ProjectCmd::ModelChanged { added, removed, .. } = cmd {
        lemma_notes_taken_out_bulk(a.notes(), removed.notes@);
        lemma_notes_taken_out_bulk(b.notes(), removed.notes@);
        lemma_bag_bulk_remove_ms_any(a.notes(), note_recs(removed.notes@));
        lemma_bag_bulk_remove_ms_any(b.notes(), note_recs(removed.notes@));
        let ta = notes_taken_out(a.notes(), removed.notes@);
        let tb = notes_taken_out(b.notes(), removed.notes@);
        assert forall|k: u32| #[trigger] notes_at_ms(b2.notes(), k) == notes_at_ms(a2.notes(), k) by {
            lemma_bag_bulk_add_ms(ta, note_recs(added.notes@), k);
            lemma_bag_bulk_add_ms(tb, note_recs(added.notes@), k);
            assert(notes_at_ms(ta, k) == notes_at_ms(a.notes(), k).sub(recs_at(note_recs(removed.notes@), k)));
            assert(notes_at_ms(tb, k) == notes_at_ms(b.notes(), k).sub(recs_at(note_recs(removed.notes@), k)));
        }
    }
}

/// Bars put under their start ticks are records put.
proof fn lemma_bars_put_is_bulk_put(m: Map<u32, Bar>, bs: Seq<Bar>)
    ensures
        bars_put(m, bs) == bulk_put(m, bar_recs(bs)),
    decreases bs.len(),
{
    if bs.len() > 0 {
        lemma_bars_put_is_bulk_put(m, bs.drop_last());
        assert(bar_recs(bs).drop_last() =~= bar_recs(bs.drop_last()));
        assert(bar_recs(bs).last() == (bs.last().start_tick, bs.last()));
    }
}

/// Records put one after the other from two runs.
proof fn lemma_bulk_put_concat<T>(m: Map<u32, T>, a: Seq<(u32, T)>, b: Seq<(u32, T)>)
    ensures
        bulk_put(m, a + b) == bulk_put(bulk_put(m, a), b),
    decreases b.len(),
{
    if b.len() == 0 {
        assert(a + b =~= a);
    } else {
        lemma_bulk_put_concat(m, a, b.drop_last());
        assert((a + b).drop_last() =~= a + b.drop_last());
        assert((a + b).last() == b.last());
    }
}

/// Keys taken out from two runs, one after the other.
proof fn lemma_remove_keys_concat<T>(m: Map<u32, T>, a: Seq<u32>, b: Seq<u32>)
    ensures
        remove_keys(m, a + b) == remove_keys(remove_keys(m, a), b),
    decreases b.len(),
{
    if b.len() == 0 {
        assert(a + b =~= a);
    } else {
        lemma_remove_keys_concat(m, a, b.drop_last());
        assert((a + b).drop_last() =~= a + b.drop_last());
        assert((a + b).last() == b.last());
    }
}

/// Where records go, what they put does not depend on the map.
proof fn lemma_bulk_put_inside<T>(m: Map<u32, T>, n: Map<u32, T>, recs: Seq<(u32, T)>)
    ensures
        forall|k: u32| #[trigger] rec_keys(recs).contains(k) ==> bulk_put(m, recs).contains_key(k)
            && bulk_put(n, recs).contains_key(k) && bulk_put(m, recs)[k] == bulk_put(n, recs)[k],
    decreases recs.len(),
{
    if recs.len() > 0 {
        let d = recs.drop_last();
        lemma_bulk_put_inside(m, n, d);
        assert(bulk_put(m, recs) == bulk_put(m, d).insert(recs.last().0, recs.last().1));
        assert(bulk_put(n, recs) == bulk_put(n, d).insert(recs.last().0, recs.last().1));
        assert forall|k: u32| #[trigger] rec_keys(recs).contains(k) implies bulk_put(m, recs).contains_key(k)
            && bulk_put(n, recs).contains_key(k) && bulk_put(m, recs)[k] == bulk_put(n, recs)[k] by {
            if k != recs.last().0 {
                let i = choose|i: int| 0 <= i < rec_keys(recs).len() && rec_keys(recs)[i] == k;
                assert(rec_keys(recs)[recs.len() - 1] == recs.last().0);
                assert(i < d.len());
                assert(rec_keys(recs)[i] == recs[i].0);
                assert(d[i] == recs[i]);
                assert(rec_keys(d)[i] == d[i].0);
                assert(rec_keys(d).contains(k));
            }
        }
    }
}

/// Keys taken out before records are put under them make no difference.
proof fn lemma_remove_then_put<T>(m: Map<u32, T>, ks: Seq<u32>, recs: Seq<(u32, T)>)
    requires
        forall|i: int| 0 <= i < ks.len() ==> rec_keys(recs).contains(#[trigger] ks[i]),
    ensures
        bulk_put(remove_keys(m, ks), recs) == bulk_put(m, recs),
{
    let x = remove_keys(m, ks);
    lemma_remove_keys_ext(m, ks);
    lemma_bulk_put_outside(x, recs);
    lemma_bulk_put_outside(m, recs);
    lemma_bulk_put_inside(x, m, recs);
    let l = bulk_put(x, recs);
    let r = bulk_put(m, recs);
    assert forall|k: u32| #[trigger] l.contains_key(k) <==> r.contains_key(k) by {
        if ks.contains(k) {
            let i = choose|i: int| 0 <= i < ks.len() && ks[i] == k;
            assert(rec_keys(recs).contains(ks[i]));
        }
    }
    assert forall|k: u32| #[trigger] l.contains_key(k) implies l[k] == r[k] by {
        if !rec_keys(recs).contains(k) {
            if ks.contains(k) {
                let i = choose|i: int| 0 <= i < ks.len() && ks[i] == k;
                assert(rec_keys(recs).contains(ks[i]));
            }
        }
    }
    assert(l =~= r);
}

/// The entries that putting records replaces are under their keys, and,
/// where the map and the records keep items under their start ticks, hold
/// items under their start ticks.
proof fn lemma_bulk_displaced_keys<T: HaveStartTick>(m: Map<u32, T>, recs: Seq<(u32, T)>)
    requires
        map_keyed(m),
        keyed(recs),
    ensures
        forall|j: int| 0 <= j < bulk_displaced(m, recs).len() ==> rec_keys(recs).contains((#[trigger] bulk_displaced(m, recs)[j]).0)
            && bulk_displaced(m, recs)[j].1.start_tick_spec() == bulk_displaced(m, recs)[j].0,
    decreases recs.len(),
{
    if recs.len() > 0 {
        let d = recs.drop_last();
        assert(keyed(d)) by {
            assert forall|i: int| 0 <= i < d.len() implies (#[trigger] d[i]).0 == d[i].1.start_tick_spec() by {
                assert(d[i] == recs[i]);
            }
        }
        lemma_bulk_displaced_keys(m, d);
        lemma_bulk_put_keyed(m, d);
        let before = bulk_put(m, d);
        let k = recs.last().0;
        let dd = bulk_displaced(m, d);
        let all = bulk_displaced(m, recs);
        let tail = if before.contains_key(k) { seq![(k, before[k])] } else { Seq::<(u32, T)>::empty() };
        assert(all == dd + tail);
        assert forall|j: int| 0 <= j < all.len() implies rec_keys(recs).contains((#[trigger] all[j]).0)
            && all[j].1.start_tick_spec() == all[j].0 by {
            if j < dd.len() {
                assert(all[j] == dd[j]);
                let i = choose|i: int| 0 <= i < rec_keys(d).len() && rec_keys(d)[i] == dd[j].0;
                assert(rec_keys(recs)[i] == dd[j].0);
            } else {
                assert(all[j] == tail[j - dd.len()]);
                assert(rec_keys(recs)[recs.len() - 1] == k);
            }
        }
    }
}

/// Items put into a map of items under their start ticks, with the ticks of
/// the items they replaced taken out first: the same as putting them in.
proof fn lemma_bulk_add_redone_map<T: HaveStartTick>(m: Map<u32, T>, recs: Seq<(u32, T)>, ks: Seq<u32>)
    requires
        map_keyed(m),
        keyed(recs),
        ks.len() == bulk_displaced(m, recs).len(),
        forall|j: int| 0 <= j < ks.len() ==> #[trigger] ks[j] == bulk_displaced(m, recs)[j].1.start_tick_spec(),
    ensures
        bulk_put(remove_keys(m, ks), recs) == bulk_put(m, recs),
{
    let d = bulk_displaced(m, recs);
    lemma_bulk_displaced_keys(m, recs);
    assert forall|i: int| 0 <= i < ks.len() implies rec_keys(recs).contains(#[trigger] ks[i]) by {
        assert(ks[i] == d[i].0);
    }
    lemma_remove_then_put(m, ks, recs);
}

/// Changes of items under their start ticks, whose `from` items are all in
/// the map under distinct keys: taking out the `from` keys and those of the
/// items the new ones replaced, then putting in the new items, is the change.
proof fn lemma_change_redone_map<T: HaveStartTick>(m: Map<u32, T>, ft: Seq<(u32, (u32, T))>, ks: Seq<u32>)
    requires
        map_keyed(m),
        forall|i: int| 0 <= i < ft.len() ==> m.contains_key((#[trigger] ft[i]).0),
        forall|i: int, j: int| 0 <= i < j < ft.len() ==> (#[trigger] ft[i]).0 != (#[trigger] ft[j]).0,
        keyed(to_recs(ft)),
        ks.len() == ft.len() + change_displaced(m, ft).len(),
        forall|i: int| 0 <= i < ft.len() ==> #[trigger] ks[i] == ft[i].0,
        forall|j: int| 0 <= j < change_displaced(m, ft).len() ==> #[trigger] ks[ft.len() + j]
            == change_displaced(m, ft)[j].1.start_tick_spec(),
    ensures
        bulk_put(remove_keys(m, ks), to_recs(ft)) == changed(m, ft),
{
    lemma_change_taken_all(m, ft);
    let fk = from_keys(ft);
    let y = remove_keys(m, fk);
    lemma_remove_keys_keyed(m, fk);
    let d = bulk_displaced(y, to_recs(ft));
    assert(change_displaced(m, ft) == d);
    let kd = ks.skip(ft.len() as int);
    assert(ks =~= fk + kd) by {
        assert forall|i: int| 0 <= i < ks.len() implies ks[i] == (fk + kd)[i] by {
            if i < ft.len() {
                assert(ks[i] == ft[i].0);
            } else {
                assert(kd[i - ft.len()] == ks[i]);
            }
        }
    }
    lemma_remove_keys_concat(m, fk, kd);
    assert forall|j: int| 0 <= j < kd.len() implies #[trigger] kd[j] == d[j].1.start_tick_spec() by {
        assert(kd[j] == ks[ft.len() + j]);
    }
    lemma_bulk_add_redone_map(y, to_recs(ft), kd);
}

/// Adding a note is doing the command it gives.
proof fn lemma_note_added_redone(before: ProjectImpl, note: Note, select: bool, after: ProjectImpl, cmd: ProjectCmd)
    requires
        note_added(before, note, select, after, cmd),
    ensures
        redone(cmd, before, after),
{
    if let ProjectCmd::ModelChanged { added, removed, .. } = cmd {
        reveal_with_fuel(bag_bulk_add, 2);
        assert(note_recs(added.notes@) =~= seq![(note_start_tick(note), note)]);
        assert(seq![(note_start_tick(note), note)].drop_last() =~= Seq::<(u32, Note)>::empty());
        lemma_bars_put_is_bulk_put(entries_map(before.bars()), added.bars@);
        assert(bar_keys(removed.bars@) =~= Seq::<u32>::empty());
        assert(tempo_keys(removed.tempos@) =~= Seq::<u32>::empty());
        assert(ctrl_keys(removed.dumpers@) =~= Seq::<u32>::empty());
        assert(ctrl_keys(removed.softs@) =~= Seq::<u32>::empty());
        assert(tempo_recs(added.tempos@) =~= Seq::<(u32, Tempo)>::empty());
        assert(ctrl_recs(added.dumpers@) =~= Seq::<(u32, CtrlChg)>::empty());
        assert(ctrl_recs(added.softs@) =~= Seq::<(u32, CtrlChg)>::empty());
    }
}

/// Putting an item in place of any under its tick, then putting it again
/// after that tick is taken out: the same.
proof fn lemma_put_replaced<T: HaveStartTick>(m: Map<u32, T>, k: u32, v: T, ks: Seq<u32>)
    requires
        map_keyed(m),
        ks == opt_seq(value_at(m, k)).map_values(|x: T| x.start_tick_spec()),
    ensures
        bulk_put(remove_keys(m, ks), seq![(k, v)]) == m.insert(k, v),
{
    reveal_with_fuel(remove_keys, 2);
    reveal_with_fuel(bulk_put, 2);
    assert(seq![(k, v)].drop_last() =~= Seq::<(u32, T)>::empty());
    if m.contains_key(k) {
        assert(ks =~= seq![k]);
        assert(ks.drop_last() =~= Seq::<u32>::empty());
        assert(m.remove(k).insert(k, v) =~= m.insert(k, v));
    } else {
        assert(ks =~= Seq::<u32>::empty());
        assert(m.insert(k, v) =~= m.insert(k, v));
    }
}

/// Adding a bar is doing the command it gives.
proof fn lemma_bar_added_redone(before: ProjectImpl, bar: Bar, select: bool, after: ProjectImpl, cmd: ProjectCmd)
    requires
        before.wf(),
        bar_added(before, bar, select, after, cmd),
    ensures
        redone(cmd, before, after),
{
    if let ProjectCmd::ModelChanged { added, removed, .. } = cmd {
        lemma_keyed(before.bars());
        let b = entries_map(before.bars());
        assert(bar_keys(removed.bars@) =~= opt_seq(value_at(b, bar.start_tick)).map_values(|x: Bar| x.start_tick_spec()));
        assert(bar_recs(added.bars@) =~= seq![(bar.start_tick, bar)]);
        lemma_put_replaced(b, bar.start_tick, bar, bar_keys(removed.bars@));
        assert(note_recs(added.notes@) =~= Seq::<(u32, Note)>::empty());
        assert(removed.notes@ =~= Seq::<Note>::empty());
        assert(tempo_keys(removed.tempos@) =~= Seq::<u32>::empty());
        assert(ctrl_keys(removed.dumpers@) =~= Seq::<u32>::empty());
        assert(ctrl_keys(removed.softs@) =~= Seq::<u32>::empty());
        assert(tempo_recs(added.tempos@) =~= Seq::<(u32, Tempo)>::empty());
        assert(ctrl_recs(added.dumpers@) =~= Seq::<(u32, CtrlChg)>::empty());
        assert(ctrl_recs(added.softs@) =~= Seq::<(u32, CtrlChg)>::empty());
    }
}

/// Adding a tempo change is doing the command it gives.
proof fn lemma_tempo_added_redone(before: ProjectImpl, tempo: Tempo, select: bool, after: ProjectImpl, cmd: ProjectCmd)
    requires
        before.wf(),
        tempo_added(before, tempo, select, after, cmd),
    ensures
        redone(cmd, before, after),
{
    if let ProjectCmd::ModelChanged { added, removed, .. } = cmd {
        lemma_keyed(before.tempos());
        let m = entries_map(before.tempos());
        assert(tempo_keys(removed.tempos@) =~= opt_seq(value_at(m, tempo.start_tick)).map_values(|x: Tempo| x.start_tick_spec()));
        assert(tempo_recs(added.tempos@) =~= seq![(tempo.start_tick, tempo)]);
        lemma_put_replaced(m, tempo.start_tick, tempo, tempo_keys(removed.tempos@));
        lemma_bars_put_is_bulk_put(entries_map(before.bars()), added.bars@);
        assert(note_recs(added.notes@) =~= Seq::<(u32, Note)>::empty());
        assert(removed.notes@ =~= Seq::<Note>::empty());
        assert(bar_keys(removed.bars@) =~= Seq::<u32>::empty());
        assert(ctrl_keys(removed.dumpers@) =~= Seq::<u32>::empty());
        assert(ctrl_keys(removed.softs@) =~= Seq::<u32>::empty());
        assert(ctrl_recs(added.dumpers@) =~= Seq::<(u32, CtrlChg)>::empty());
        assert(ctrl_recs(added.softs@) =~= Seq::<(u32, CtrlChg)>::empty());
    }
}

/// Adding a dumper pedal change is doing the command it gives.
proof fn lemma_dumper_added_redone(before: ProjectImpl, dumper: CtrlChg, select: bool, after: ProjectImpl, cmd: ProjectCmd)
    requires
        before.wf(),
        dumper_added(before, dumper, select, after, cmd),
    ensures
        redone(cmd, before, after),
{
    if let ProjectCmd::ModelChanged { added, removed, .. } = cmd {
        lemma_keyed(before.dumpers());
        let m = entries_map(before.dumpers());
        assert(ctrl_keys(removed.dumpers@) =~= opt_seq(value_at(m, dumper.start_tick)).map_values(|x: CtrlChg| x.start_tick_spec()));
        assert(ctrl_recs(added.dumpers@) =~= seq![(dumper.start_tick, dumper)]);
        lemma_put_replaced(m, dumper.start_tick, dumper, ctrl_keys(removed.dumpers@));
        lemma_bars_put_is_bulk_put(entries_map(before.bars()), added.bars@);
        assert(note_recs(added.notes@) =~= Seq::<(u32, Note)>::empty());
        assert(removed.notes@ =~= Seq::<Note>::empty());
        assert(bar_keys(removed.bars@) =~= Seq::<u32>::empty());
        assert(tempo_keys(removed.tempos@) =~= Seq::<u32>::empty());
        assert(ctrl_keys(removed.softs@) =~= Seq::<u32>::empty());
        assert(tempo_recs(added.tempos@) =~= Seq::<(u32, Tempo)>::empty());
        assert(ctrl_recs(added.softs@) =~= Seq::<(u32, CtrlChg)>::empty());
    }
}

/// Adding a soft pedal change is doing the command it gives.
proof fn lemma_soft_added_redone(before: ProjectImpl, soft: CtrlChg, select: bool, after: ProjectImpl, cmd: ProjectCmd)
    requires
        before.wf(),
        soft_added(before, soft, select, after, cmd),
    ensures
        redone(cmd, before, after),
{
    if let ProjectCmd::ModelChanged { added, removed, .. } = cmd {
        lemma_keyed(before.softs());
        let m = entries_map(before.softs());
        assert(ctrl_keys(removed.softs@) =~= opt_seq(value_at(m, soft.start_tick)).map_values(|x: CtrlChg| x.start_tick_spec()));
        assert(ctrl_recs(added.softs@) =~= seq![(soft.start_tick, soft)]);
        lemma_put_replaced(m, soft.start_tick, soft, ctrl_keys(removed.softs@));
        lemma_bars_put_is_bulk_put(entries_map(before.bars()), added.bars@);
        assert(note_recs(added.notes@) =~= Seq::<(u32, Note)>::empty());
        assert(removed.notes@ =~= Seq::<Note>::empty());
        assert(bar_keys(removed.bars@) =~= Seq::<u32>::empty());
        assert(tempo_keys(removed.tempos@) =~= Seq::<u32>::empty());
        assert(ctrl_keys(removed.dumpers@) =~= Seq::<u32>::empty());
        assert(tempo_recs(added.tempos@) =~= Seq::<(u32, Tempo)>::empty());
        assert(ctrl_recs(added.dumpers@) =~= Seq::<(u32, CtrlChg)>::empty());
    }
}

/// Making a tuplet is doing the command it gives.
proof fn lemma_tuplized_redone(before: ProjectImpl, notes: Seq<Rc<Note>>, after: ProjectImpl, cmd: ProjectCmd)
    requires
        keeps_settings(before, after),
        after.tempos() == before.tempos(),
        after.dumpers() == before.dumpers(),
        after.softs() == before.softs(),
        tuplized(before, notes, after, Ok(cmd)),
    ensures
        redone(cmd, before, after),
{
    if let ProjectCmd::ModelChanged { added, removed, .. } = cmd {
        lemma_notes_taken_out_bulk(before.notes(), unwrapped(notes));
        lemma_bars_put_is_bulk_put(entries_map(before.bars()), added.bars@);
        assert(bar_keys(removed.bars@) =~= Seq::<u32>::empty());
        assert(tempo_keys(removed.tempos@) =~= Seq::<u32>::empty());
        assert(ctrl_keys(removed.dumpers@) =~= Seq::<u32>::empty());
        assert(ctrl_keys(removed.softs@) =~= Seq::<u32>::empty());
        assert(tempo_recs(added.tempos@) =~= Seq::<(u32, Tempo)>::empty());
        assert(ctrl_recs(added.dumpers@) =~= Seq::<(u32, CtrlChg)>::empty());
        assert(ctrl_recs(added.softs@) =~= Seq::<(u32, CtrlChg)>::empty());
    }
}

/// Adding items is doing the command it gives.
proof fn lemma_bulk_added_redone(before: ProjectImpl, to_add: Models, metadata: ModelChangeMetadata, after: ProjectImpl, cmd: ProjectCmd)
    requires
        before.wf(),
        bulk_added(before, to_add, metadata, after, cmd),
    ensures
        redone(cmd, before, after),
{
    if let ProjectCmd::ModelChanged { added, removed, .. } = cmd {
        lemma_keyed(before.bars());
        lemma_keyed(before.tempos());
        lemma_keyed(before.dumpers());
        lemma_keyed(before.softs());
        lemma_recs_keyed(to_add.bars@, to_add.tempos@, to_add.dumpers@);
        lemma_recs_keyed(to_add.bars@, to_add.tempos@, to_add.softs@);
        assert(removed.notes@ =~= Seq::<Note>::empty());
        // Tempo and pedal changes.
        lemma_bulk_add_redone_map(entries_map(before.tempos()), tempo_recs(to_add.tempos@), tempo_keys(removed.tempos@));
        lemma_bulk_add_redone_map(entries_map(before.dumpers()), ctrl_recs(to_add.dumpers@), ctrl_keys(removed.dumpers@));
        lemma_bulk_add_redone_map(entries_map(before.softs()), ctrl_recs(to_add.softs@), ctrl_keys(removed.softs@));
        // Bars: those given, then those added after the last.
        let n = to_add.bars@.len() as int;
        let b = entries_map(before.bars());
        let br = bar_recs(to_add.bars@);
        let fill = added.bars@.skip(n);
        assert(added.bars@ =~= to_add.bars@ + fill);
        assert(bar_recs(added.bars@) =~= br + bar_recs(fill));
        lemma_bars_put_is_bulk_put(bulk_put(b, br), fill);
        lemma_bulk_add_redone_map(b, br, bar_keys(removed.bars@));
        lemma_bulk_put_concat(remove_keys(b, bar_keys(removed.bars@)), br, bar_recs(fill));
    }
}

/// Changes that can be undone are doing the command they give.
proof fn lemma_changes_done_redone(before: ProjectImpl, from_to: ModelChanges, metadata: ModelChangeMetadata, after: ProjectImpl, cmd: ProjectCmd)
    requires
        before.wf(),
        changes_undoable(before, from_to),
        changes_done(before, from_to, metadata, after, cmd),
    ensures
        redone(cmd, before, after),
{
    if let ProjectCmd::ModelChanged { added, removed, .. } = cmd {
        // Notes.
        let nc = note_changes(from_to.notes@);
        assert(change_froms(nc) =~= note_recs(befores(from_to.notes@)));
        assert(change_tos(nc) =~= note_recs(afters(from_to.notes@)));
        lemma_bag_change_taken_all(before.notes(), nc);
        lemma_notes_taken_out_bulk(before.notes(), befores(from_to.notes@));
        lemma_keyed(before.bars());
        lemma_keyed(before.tempos());
        lemma_keyed(before.dumpers());
        lemma_keyed(before.softs());
        // Tempo and pedal changes.
        let tc = tempo_changes(from_to.tempos@);
        assert(to_recs(tc) =~= tempo_recs(afters(from_to.tempos@)));
        lemma_recs_keyed(afters(from_to.bars@), afters(from_to.tempos@), afters(from_to.dumpers@));
        lemma_recs_keyed(afters(from_to.bars@), afters(from_to.tempos@), afters(from_to.softs@));
        assert forall|i: int| 0 <= i < tc.len() implies entries_map(before.tempos()).contains_key((#[trigger] tc[i]).0) by {
            assert(tempo_recs(befores(from_to.tempos@))[i].0 == tc[i].0);
        }
        assert forall|i: int, j: int| 0 <= i < j < tc.len() implies (#[trigger] tc[i]).0 != (#[trigger] tc[j]).0 by {
            assert(tempo_recs(befores(from_to.tempos@))[i].0 == tc[i].0);
            assert(tempo_recs(befores(from_to.tempos@))[j].0 == tc[j].0);
        }
        lemma_change_redone_map(entries_map(before.tempos()), tc, tempo_keys(removed.tempos@));
        let dc = ctrl_changes(from_to.dumpers@);
        assert(to_recs(dc) =~= ctrl_recs(afters(from_to.dumpers@)));
        assert forall|i: int| 0 <= i < dc.len() implies entries_map(before.dumpers()).contains_key((#[trigger] dc[i]).0) by {
            assert(ctrl_recs(befores(from_to.dumpers@))[i].0 == dc[i].0);
        }
        assert forall|i: int, j: int| 0 <= i < j < dc.len() implies (#[trigger] dc[i]).0 != (#[trigger] dc[j]).0 by {
            assert(ctrl_recs(befores(from_to.dumpers@))[i].0 == dc[i].0);
            assert(ctrl_recs(befores(from_to.dumpers@))[j].0 == dc[j].0);
        }
        lemma_change_redone_map(entries_map(before.dumpers()), dc, ctrl_keys(removed.dumpers@));
        let sc = ctrl_changes(from_to.softs@);
        assert(to_recs(sc) =~= ctrl_recs(afters(from_to.softs@)));
        assert forall|i: int| 0 <= i < sc.len() implies entries_map(before.softs()).contains_key((#[trigger] sc[i]).0) by {
            assert(ctrl_recs(befores(from_to.softs@))[i].0 == sc[i].0);
        }
        assert forall|i: int, j: int| 0 <= i < j < sc.len() implies (#[trigger] sc[i]).0 != (#[trigger] sc[j]).0 by {
            assert(ctrl_recs(befores(from_to.softs@))[i].0 == sc[i].0);
            assert(ctrl_recs(befores(from_to.softs@))[j].0 == sc[j].0);
        }
        lemma_change_redone_map(entries_map(before.softs()), sc, ctrl_keys(removed.softs@));
        // Bars: the changed ones, then those added after the last.
        let bc = bar_changes(from_to.bars@);
        let n = from_to.bars@.len() as int;
        let b = entries_map(before.bars());
        assert(to_recs(bc) =~= bar_recs(afters(from_to.bars@)));
        assert forall|i: int| 0 <= i < bc.len() implies b.contains_key((#[trigger] bc[i]).0) by {
            assert(bar_recs(befores(from_to.bars@))[i].0 == bc[i].0);
        }
        assert forall|i: int, j: int| 0 <= i < j < bc.len() implies (#[trigger] bc[i]).0 != (#[trigger] bc[j]).0 by {
            assert(bar_recs(befores(from_to.bars@))[i].0 == bc[i].0);
            assert(bar_recs(befores(from_to.bars@))[j].0 == bc[j].0);
        }
        lemma_change_redone_map(b, bc, bar_keys(removed.bars@));
        let fill = added.bars@.skip(n);
        assert(added.bars@ =~= afters(from_to.bars@) + fill);
        assert(bar_recs(added.bars@) =~= to_recs(bc) + bar_recs(fill));
        lemma_bars_put_is_bulk_put(changed(b, bc), fill);
        lemma_bulk_put_concat(remove_keys(b, bar_keys(removed.bars@)), to_recs(bc), bar_recs(fill));
    }
}

/// The same contents are the same contents up to the order of the notes
/// under a tick.
proof fn lemma_same_contents_unordered(a: ProjectImpl, b: ProjectImpl)
    requires
        same_contents(a, b),
    ensures
        same_contents_unordered(a, b),
{
}

/// Redoing a new time signature, key or grid after undoing it sets it
/// again: the project as doing it left it.
pub proof fn law_redo_setting(before: ProjectImpl, cmd: ProjectCmd, after: ProjectImpl, back: ProjectImpl, again: ProjectImpl)
    requires
        match cmd {
            ProjectCmd::SetRhythm(o, _) => o == before.rhythm_spec(),
            ProjectCmd::SetKey(o, _) => o == before.key_spec(),
            ProjectCmd::SetGrid(o, _) => o == before.grid_spec(),
            ProjectCmd::ModelChanged { .. } => false,
        },
        redone(cmd, before, after),
        undone(cmd, after, back),
        redone(cmd, back, again),
    ensures
        settings_set(after, again, after.rhythm_spec(), after.key_spec(), after.grid_spec()),
{
}

/// Redoing the command that adding a note gave, after undoing it, gives the
/// project as adding left it (the notes under a tick maybe in another order).
pub proof fn law_redo_add_note(before: ProjectImpl, note: Note, select: bool, after: ProjectImpl, cmd: ProjectCmd, back: ProjectImpl, again: ProjectImpl)
    requires
        before.wf(),
        note_added(before, note, select, after, cmd),
        undone(cmd, after, back),
        redone(cmd, back, again),
    ensures
        same_contents_unordered(after, again),
{
    law_undo_add_note(before, note, select, after, cmd, back);
    lemma_note_added_redone(before, note, select, after, cmd);
    lemma_redone_congruent(cmd, before, after, back, again);
}

/// Redoing the command that putting a bar gave, after undoing it, gives the
/// project as putting it left it.
pub proof fn law_redo_add_bar(before: ProjectImpl, bar: Bar, select: bool, after: ProjectImpl, cmd: ProjectCmd, back: ProjectImpl, again: ProjectImpl)
    requires
        before.wf(),
        bar_added(before, bar, select, after, cmd),
        undone(cmd, after, back),
        redone(cmd, back, again),
    ensures
        same_contents_unordered(after, again),
{
    law_undo_add_bar(before, bar, select, after, cmd, back);
    lemma_same_contents_unordered(before, back);
    lemma_bar_added_redone(before, bar, select, after, cmd);
    lemma_redone_congruent(cmd, before, after, back, again);
}

/// Redoing the command that putting a tempo change gave, after undoing it,
/// gives the project as putting it left it.
pub proof fn law_redo_add_tempo(before: ProjectImpl, tempo: Tempo, select: bool, after: ProjectImpl, cmd: ProjectCmd, back: ProjectImpl, again: ProjectImpl)
    requires
        before.wf(),
        tempo_added(before, tempo, select, after, cmd),
        undone(cmd, after, back),
        redone(cmd, back, again),
    ensures
        same_contents_unordered(after, again),
{
    law_undo_add_tempo(before, tempo, select, after, cmd, back);
    lemma_same_contents_unordered(before, back);
    lemma_tempo_added_redone(before, tempo, select, after, cmd);
    lemma_redone_congruent(cmd, before, after, back, again);
}

/// Redoing the command that putting a dumper pedal change gave, after
/// undoing it, gives the project as putting it left it.
pub proof fn law_redo_add_dumper(before: ProjectImpl, dumper: CtrlChg, select: bool, after: ProjectImpl, cmd: ProjectCmd, back: ProjectImpl, again: ProjectImpl)
    requires
        before.wf(),
        dumper_added(before, dumper, select, after, cmd),
        undone(cmd, after, back),
        redone(cmd, back, again),
    ensures
        same_contents_unordered(after, again),
{
    law_undo_add_dumper(before, dumper, select, after, cmd, back);
    lemma_same_contents_unordered(before, back);
    lemma_dumper_added_redone(before, dumper, select, after, cmd);
    lemma_redone_congruent(cmd, before, after, back, again);
}

/// Redoing the command that putting a soft pedal change gave, after undoing
/// it, gives the project as putting it left it.
pub proof fn law_redo_add_soft(before: ProjectImpl, soft: CtrlChg, select: bool, after: ProjectImpl, cmd: ProjectCmd, back: ProjectImpl, again: ProjectImpl)
    requires
        before.wf(),
        soft_added(before, soft, select, after, cmd),
        undone(cmd, after, back),
        redone(cmd, back, again),
    ensures
        same_contents_unordered(after, again),
{
    law_undo_add_soft(before, soft, select, after, cmd, back);
    lemma_same_contents_unordered(before, back);
    lemma_soft_added_redone(before, soft, select, after, cmd);
    lemma_redone_congruent(cmd, before, after, back, again);
}

/// Redoing a removal of items that were all in the project, after undoing
/// it, gives the project as the removal left it (the notes under a tick
/// maybe in another order).
pub proof fn law_redo_bulk_remove(before: ProjectImpl, to_remove: Models, cmd: ProjectCmd, after: ProjectImpl, back: ProjectImpl, again: ProjectImpl)
    requires
        before.wf(),
        all_there(before, to_remove),
        cmd matches ProjectCmd::ModelChanged { added, removed, .. } && added.is_empty_spec() && removed == to_remove,
        redone(cmd, before, after),
        undone(cmd, after, back),
        redone(cmd, back, again),
    ensures
        same_contents_unordered(after, again),
{
    law_undo_bulk_remove(before, to_remove, cmd, after, back);
    lemma_redone_congruent(cmd, before, after, back, again);
}

/// Redoing the making of a tuplet of notes that were all in the project,
/// after undoing it, gives the project as making it left it (the notes under
/// a tick maybe in another order).
pub proof fn law_redo_tuplize(before: ProjectImpl, notes: Seq<Rc<Note>>, after: ProjectImpl, cmd: ProjectCmd, back: ProjectImpl, again: ProjectImpl)
    requires
        before.wf(),
        1 < notes.len(),
        forall|k: u32| #[trigger] recs_at(note_recs(unwrapped(notes)), k).subset_of(notes_at_ms(before.notes(), k)),
        keeps_settings(before, after),
        after.tempos() == before.tempos(),
        after.dumpers() == before.dumpers(),
        after.softs() == before.softs(),
        tuplized(before, notes, after, Ok(cmd)),
        undone(cmd, after, back),
        redone(cmd, back, again),
    ensures
        same_contents_unordered(after, again),
{
    law_undo_tuplize(before, notes, after, cmd, back);
    lemma_tuplized_redone(before, notes, after, cmd);
    lemma_redone_congruent(cmd, before, after, back, again);
}

/// Redoing an addition of items, after undoing it, gives the project as the
/// addition left it, where the bars, the tempo changes and each kind of
/// pedal change added have ticks that differ (the notes under a tick maybe
/// in another order).
pub proof fn law_redo_bulk_add(before: ProjectImpl, to_add: Models, metadata: ModelChangeMetadata, after: ProjectImpl, cmd: ProjectCmd, back: ProjectImpl, again: ProjectImpl)
    requires
        before.wf(),
        keys_distinct(bar_recs(to_add.bars@)),
        keys_distinct(tempo_recs(to_add.tempos@)),
        keys_distinct(ctrl_recs(to_add.dumpers@)),
        keys_distinct(ctrl_recs(to_add.softs@)),
        bulk_added(before, to_add, metadata, after, cmd),
        undone(cmd, after, back),
        redone(cmd, back, again),
    ensures
        same_contents_unordered(after, again),
{
    law_undo_bulk_add(before, to_add, metadata, after, cmd, back);
    lemma_bulk_added_redone(before, to_add, metadata, after, cmd);
    lemma_redone_congruent(cmd, before, after, back, again);
}

/// Redoing changes that can be undone, after undoing them, gives the project
/// as the changes left it (the notes under a tick maybe in another order).
pub proof fn law_redo_change(before: ProjectImpl, from_to: ModelChanges, metadata: ModelChangeMetadata, after: ProjectImpl, cmd: ProjectCmd, back: ProjectImpl, again: ProjectImpl)
    requires
        before.wf(),
        changes_undoable(before, from_to),
        changes_done(before, from_to, metadata, after, cmd),
        undone(cmd, after, back),
        redone(cmd, back, again),
    ensures
        same_contents_unordered(after, again),
{
    law_undo_change(before, from_to, metadata, after, cmd, back);
    lemma_changes_done_redone(before, from_to, metadata, after, cmd);
    lemma_redone_congruent(cmd, before, after, back, again);
}

} // verus!
