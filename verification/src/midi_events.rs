//! MIDI messages placed in time: the messages of the notes and pedals by
//! accumulated tick, turned into bytes by audio cycle, with the tables that
//! bring a cycle back to a tick of the score.
use vstd::prelude::*;
use std::collections::BTreeMap;
use klavier_helper::store::Store;
use crate::channel::Channel;
use crate::pitch::{Pitch, pitch_value_of};
use crate::velocity::Velocity;
use crate::tempo::TempoValue;
use crate::repeat::{AccumTick, Chunk, store_entries};
use crate::repo::{keys_increasing, entries_map};

verus! {

/// A MIDI message to send.
#[derive(Debug, Clone, Copy, PartialEq, Eq)]
pub enum MidiSrc {
    NoteOn { channel: Channel, pitch: Pitch, velocity: Velocity },
    NoteOff { channel: Channel, pitch: Pitch },
    CtrlChg { channel: Channel, number: u8, velocity: Velocity },
}

impl MidiSrc {
    /// The bytes of the message: the status byte (note on, or control
    /// change, with the channel), then the two data bytes; a note off is a
    /// note on of velocity 0.
    pub open spec fn bytes(self) -> Seq<u8> {
        match self {
            MidiSrc::NoteOn { channel, pitch, velocity } =>
                seq![0x90u8 | (channel@ as u8), pitch_value_of(pitch@) as u8, velocity@ as u8],
            MidiSrc::NoteOff { channel, pitch } => seq![0x90u8 | (channel@ as u8), pitch_value_of(pitch@) as u8, 0u8],
            MidiSrc::CtrlChg { channel, number, velocity } => seq![0xb0u8 | (channel@ as u8), number, velocity@ as u8],
        }
    }

    /// Appends the bytes of the message.
    pub fn render_to(self, buf: &mut Vec<u8>)
        ensures
            final(buf)@ == old(buf)@ + self.bytes(),
    {
        match self {
            MidiSrc::NoteOn { channel, pitch, velocity } => {
                buf.push(0b10010000 | channel.as_u8());
                buf.push(pitch.value());
                buf.push(velocity.as_u8());
            },
            MidiSrc::NoteOff { channel, pitch } => {
                buf.push(0b10010000 | channel.as_u8());
                buf.push(pitch.value());
                buf.push(0);
            },
            MidiSrc::CtrlChg { channel, number, velocity } => {
                buf.push(0b10110000 | channel.as_u8());
                buf.push(number);
                buf.push(velocity.as_u8());
            },
        }
        proof { assert(final(buf)@ =~= old(buf)@ + self.bytes()); }
    }
}

/// `r` is the entry of the highest key at or below `k`, if there is one.
pub open spec fn at_or_before<T>(e: Seq<(u32, T)>, k: u32, r: Option<(u32, T)>) -> bool {
    match r {
        Some(x) => e.contains(x) && x.0 <= k && forall|i: int| 0 <= i < e.len() && e[i].0 <= k ==> (#[trigger] e[i]).0 <= x.0,
        None => forall|i: int| 0 <= i < e.len() ==> (#[trigger] e[i]).0 > k,
    }
}

/// `r` is the entry of the highest key at or below `k`, if there is one
/// (keys of 64 bits).
pub open spec fn at_or_before_wide<T>(e: Seq<(u64, T)>, k: u64, r: Option<(u64, T)>) -> bool {
    match r {
        Some(x) => e.contains(x) && x.0 <= k && forall|i: int| 0 <= i < e.len() && e[i].0 <= k ==> (#[trigger] e[i]).0 <= x.0,
        None => forall|i: int| 0 <= i < e.len() ==> (#[trigger] e[i]).0 > k,
    }
}

/// Keys of 64 bits that increase strictly along the entries.
pub open spec fn keys_increasing_wide<T>(e: Seq<(u64, T)>) -> bool {
    forall|i: int, j: int| 0 <= i < j < e.len() ==> (#[trigger] e[i]).0 < (#[trigger] e[j]).0
}

/// The entry of the highest key at or below `k` (keys of 64 bits).
pub open spec fn entry_at_or_before_wide<T>(e: Seq<(u64, T)>, k: u64) -> Option<(u64, T)> {
    choose|r: Option<(u64, T)>| at_or_before_wide(e, k, r)
}

/// With increasing keys, one entry only is the one at or before a key
/// (keys of 64 bits).
proof fn lemma_at_or_before_wide_unique<T>(e: Seq<(u64, T)>, k: u64, r: Option<(u64, T)>)
    requires
        keys_increasing_wide(e),
        at_or_before_wide(e, k, r),
    ensures
        entry_at_or_before_wide(e, k) == r,
{
    let c = entry_at_or_before_wide(e, k);
    assert(at_or_before_wide(e, k, c));
    match (r, c) {
        (Some(x), Some(y)) => {
            let i = choose|i: int| 0 <= i < e.len() && e[i] == x;
            let j = choose|j: int| 0 <= j < e.len() && e[j] == y;
            assert(e[i].0 <= e[j].0 && e[j].0 <= e[i].0);
            if i < j {
                assert(e[i].0 < e[j].0);
            } else if j < i {
                assert(e[j].0 < e[i].0);
            }
        },
        (Some(x), None) => {
            let i = choose|i: int| 0 <= i < e.len() && e[i] == x;
            assert(e[i].0 > k);
        },
        (None, Some(y)) => {
            let j = choose|j: int| 0 <= j < e.len() && e[j] == y;
            assert(e[j].0 > k);
        },
        (None, None) => {},
    }
}

/// Entries of 64-bit keys as a map from key to value.
pub open spec fn wide_map<T>(e: Seq<(u64, T)>) -> Map<u64, T> {
    Map::new(
        |k: u64| exists|i: int| 0 <= i < e.len() && (#[trigger] e[i]).0 == k,
        |k: u64| e[choose|i: int| 0 <= i < e.len() && (#[trigger] e[i]).0 == k].1,
    )
}

/// The entries of the table that maps audio cycles to ticks and tempos.
pub uninterp spec fn tracking_entries(s: Store<u64, (AccumTick, TempoValue), ()>) -> Seq<(u64, (AccumTick, TempoValue))>;

/// `Store::new`: a table from cycles to ticks with no entry.
#[verifier::external_body]
fn tracking_store_new() -> (r: Store<u64, (AccumTick, TempoValue), ()>)
    ensures
        tracking_entries(r) == Seq::<(u64, (AccumTick, TempoValue))>::empty(),
{
    Store::new(false)
}

/// `Store::add`: puts the tick and tempo under the cycle, in place of any
/// there; the keys stay in increasing order.
#[verifier::external_body]
fn tracking_store_add(s: &mut Store<u64, (AccumTick, TempoValue), ()>, key: u64, value: (AccumTick, TempoValue))
    requires
        keys_increasing_wide(tracking_entries(*old(s))),
    ensures
        keys_increasing_wide(tracking_entries(*final(s))),
        wide_map(tracking_entries(*final(s))) == wide_map(tracking_entries(*old(s))).insert(key, value),
{
    s.add(key, value, ());
}

/// `Store::just_before`: the entry of the highest cycle at or below `key`.
#[verifier::external_body]
fn tracking_store_just_before(s: &Store<u64, (AccumTick, TempoValue), ()>, key: u64) -> (r: Option<(u64, (AccumTick, TempoValue))>)
    ensures
        at_or_before_wide(tracking_entries(*s), key, r),
{
    s.just_before(key).next().copied()
}

/// `Store::just_before`: the chunk of the highest accumulated tick at or below `key`.
#[verifier::external_body]
fn chunk_store_just_before(s: &Store<AccumTick, Chunk, ()>, key: AccumTick) -> (r: Option<(AccumTick, Chunk)>)
    ensures
        at_or_before(store_entries(*s), key, r),
{
    s.just_before(key).next().copied()
}

/// The tick of the score that plays at an audio cycle, from the entry of the
/// cycle table at or before it (the tempo there, from its tick), or from
/// the start at the default tempo of 120.
pub open spec fn tick_of_cycle(found: Option<(u64, (AccumTick, TempoValue))>, cycle: u64, sampling_rate: u32) -> int {
    match found {
        Some((c, (tick, tempo))) => tick + ((((cycle - c) * tempo@ * 240) / (sampling_rate as int) / 60) as u32),
        None => ((cycle * 120 * 240 / (sampling_rate as int) / 60) as u32) as int,
    }
}

/// The computation of `tick_of_cycle` stays within its integers.
pub open spec fn tick_of_cycle_fits(found: Option<(u64, (AccumTick, TempoValue))>, cycle: u64, sampling_rate: u32) -> bool {
    &&& sampling_rate > 0
    &&& match found {
        Some((c, (tick, tempo))) => (cycle - c) * tempo@ * 240 <= u64::MAX && tick_of_cycle(found, cycle, sampling_rate) <= u32::MAX,
        None => cycle * 120 * 240 <= u64::MAX,
    }
}

/// The tick of the score at an accumulated tick: from the chunk played at
/// or before it, as far into the chunk as the accumulated tick is past the
/// chunk's start; the accumulated tick itself before the first chunk.
pub open spec fn tick_of_accum(found: Option<(AccumTick, Chunk)>, tick: AccumTick) -> int {
    match found {
        Some((at, chunk)) => chunk.start() + (tick - at),
        None => tick as int,
    }
}

/// MIDI data ready to play: the bytes of the messages by audio cycle, the
/// table from cycles to ticks and tempos, and the chunks of the score by
/// accumulated tick.
pub struct PlayData {
    midi_data: Store<u64, Vec<Vec<u8>>, ()>,
    table_for_tracking: Store<u64, (AccumTick, TempoValue), ()>,
    chunks: Store<AccumTick, Chunk, ()>,
}

impl PlayData {
    /// The table from cycles to ticks and tempos.
    pub closed spec fn tracking(&self) -> Seq<(u64, (AccumTick, TempoValue))> {
        tracking_entries(self.table_for_tracking)
    }

    /// The chunks by accumulated tick.
    pub closed spec fn chunk_entries(&self) -> Seq<(AccumTick, Chunk)> {
        store_entries(self.chunks)
    }

    /// The tables keep their keys in increasing order.
    pub open spec fn wf(&self) -> bool {
        &&& keys_increasing_wide(self.tracking())
        &&& keys_increasing(self.chunk_entries())
    }

    /// The tick of the score that plays at an audio cycle (see `tick_of_cycle`).
    pub fn cycle_to_tick(&self, cycle: u64, sampling_rate: u32) -> (r: AccumTick)
        requires
            self.wf(),
            tick_of_cycle_fits(entry_at_or_before_wide(self.tracking(), cycle), cycle, sampling_rate),
        ensures
            r == tick_of_cycle(entry_at_or_before_wide(self.tracking(), cycle), cycle, sampling_rate),
    {
        let found = tracking_store_just_before(&self.table_for_tracking, cycle);
        proof { lemma_at_or_before_wide_unique(self.tracking(), cycle, found); }
        let r = match found {
            Some((c, (tick, tempo))) => {
                tick + ((cycle - c) * tempo.value() as u64 * 240 / sampling_rate as u64 / 60) as u32
            },
            None => {
                (cycle * 120 * 240 / sampling_rate as u64 / 60) as u32
            },
        };
        assert(r == tick_of_cycle(found, cycle, sampling_rate));
        r
    }

    /// The tick of the score at an accumulated tick (see `tick_of_accum`).
    pub fn accum_tick_to_tick(&self, tick: AccumTick) -> (r: u32)
        requires
            self.wf(),
            tick_of_accum(entry_at_or_before(self.chunk_entries(), tick), tick) <= u32::MAX,
        ensures
            r == tick_of_accum(entry_at_or_before(self.chunk_entries(), tick), tick),
    {
        let found = chunk_store_just_before(&self.chunks, tick);
        proof { lemma_at_or_before_unique(self.chunk_entries(), tick, found); }
        match found {
            Some((at_tick, chunk)) => chunk.start_tick() + (tick - at_tick),
            None => tick,
        }
    }
}

/// The tempo changes by accumulated tick.
pub uninterp spec fn tempo_table_entries(s: Store<AccumTick, TempoValue, ()>) -> Seq<(AccumTick, TempoValue)>;

/// `Store::new`: a table of tempo changes with no entry.
#[verifier::external_body]
fn tempo_table_new() -> (r: Store<AccumTick, TempoValue, ()>)
    ensures
        tempo_table_entries(r) == Seq::<(AccumTick, TempoValue)>::empty(),
{
    Store::new(false)
}

/// `Store::add`: puts the tempo under the tick, in place of any there; the
/// keys stay in increasing order.
#[verifier::external_body]
fn tempo_table_add(s: &mut Store<AccumTick, TempoValue, ()>, key: AccumTick, value: TempoValue)
    requires
        keys_increasing(tempo_table_entries(*old(s))),
    ensures
        keys_increasing(tempo_table_entries(*final(s))),
        entries_map(tempo_table_entries(*final(s))) == entries_map(tempo_table_entries(*old(s))).insert(key, value),
{
    s.add(key, value, ());
}

/// `Store`'s `Deref`: the tempo changes, in order.
#[verifier::external_body]
fn tempo_table_slice(s: &Store<AccumTick, TempoValue, ()>) -> (r: &[(AccumTick, TempoValue)])
    ensures
        r@ == tempo_table_entries(*s),
{
    &**s
}

/// The tempo changes by accumulated tick, each with the audio cycle at
/// which it starts.
pub uninterp spec fn cycle_entries(s: Store<AccumTick, (TempoValue, u64), ()>) -> Seq<(AccumTick, (TempoValue, u64))>;

/// `Store::with_capacity`: a table of cycles with no entry.
#[verifier::external_body]
fn cycle_table_with_capacity(capacity: usize) -> (r: Store<AccumTick, (TempoValue, u64), ()>)
    ensures
        cycle_entries(r) == Seq::<(AccumTick, (TempoValue, u64))>::empty(),
{
    Store::with_capacity(capacity, false)
}

/// `Store::add`: puts the tempo and cycle under the tick, in place of any
/// there; the keys stay in increasing order.
#[verifier::external_body]
fn cycle_table_add(s: &mut Store<AccumTick, (TempoValue, u64), ()>, key: AccumTick, value: (TempoValue, u64))
    requires
        keys_increasing(cycle_entries(*old(s))),
    ensures
        keys_increasing(cycle_entries(*final(s))),
        entries_map(cycle_entries(*final(s))) == entries_map(cycle_entries(*old(s))).insert(key, value),
{
    s.add(key, value, ());
}

/// `Store::just_before`: the entry of the highest tick at or below `key`.
#[verifier::external_body]
fn cycle_table_just_before(s: &Store<AccumTick, (TempoValue, u64), ()>, key: AccumTick) -> (r: Option<(AccumTick, (TempoValue, u64))>)
    ensures
        at_or_before(cycle_entries(*s), key, r),
{
    s.just_before(key).next().copied()
}

/// The bytes of the messages by audio cycle: under each cycle, the messages
/// in the order they were put.
pub uninterp spec fn midi_entries(s: Store<u64, Vec<Vec<u8>>, ()>) -> Seq<(u64, Seq<Seq<u8>>)>;

/// `Store::new`: no bytes at any cycle.
#[verifier::external_body]
fn midi_store_new() -> (r: Store<u64, Vec<Vec<u8>>, ()>)
    ensures
        midi_entries(r) == Seq::<(u64, Seq<Seq<u8>>)>::empty(),
{
    Store::new(false)
}

/// `Store::remove`: takes the messages at the cycle out, giving them back.
#[verifier::external_body]
fn midi_store_remove(s: &mut Store<u64, Vec<Vec<u8>>, ()>, key: u64) -> (r: Option<(u64, Vec<Vec<u8>>)>)
    ensures
        wide_map(midi_entries(*final(s))) == wide_map(midi_entries(*old(s))).remove(key),
        match r {
            Some((k, v)) => k == key && wide_map(midi_entries(*old(s))).contains_key(key)
                && v.deep_view() == wide_map(midi_entries(*old(s)))[key],
            None => !wide_map(midi_entries(*old(s))).contains_key(key),
        },
{
    s.remove(&key)
}

/// `Store::add`: puts the messages under the cycle, in place of any there.
#[verifier::external_body]
fn midi_store_add(s: &mut Store<u64, Vec<Vec<u8>>, ()>, key: u64, value: Vec<Vec<u8>>)
    ensures
        wide_map(midi_entries(*final(s))) == wide_map(midi_entries(*old(s))).insert(key, value.deep_view()),
{
    s.add(key, value, ());
}

/// The audio cycles that `tick` ticks last at `tempo` beats a minute,
/// `ticks_per_quarter` ticks a beat and `sampling_rate` cycles a second.
pub open spec fn cycles_of_ticks(tick: int, sampling_rate: int, tempo: int, ticks_per_quarter: int) -> int {
    tick * sampling_rate * 60 / tempo / ticks_per_quarter
}

/// The audio cycle at which an accumulated tick plays, from the entry of the
/// cycle table at or before it, or from the start at the default tempo of 120.
pub open spec fn cycle_of_tick(found: Option<(AccumTick, (TempoValue, u64))>, tick: AccumTick, sampling_rate: int, ticks_per_quarter: int) -> int {
    match found {
        Some((t, (tempo, cycles))) => cycles + cycles_of_ticks(tick - t, sampling_rate, tempo@, ticks_per_quarter),
        None => cycles_of_ticks(tick as int, sampling_rate, 120, ticks_per_quarter),
    }
}

/// The computation of `cycle_of_tick` stays within 64 bits and divides by no zero.
pub open spec fn cycle_of_tick_fits(found: Option<(AccumTick, (TempoValue, u64))>, tick: AccumTick, sampling_rate: int, ticks_per_quarter: int) -> bool {
    &&& ticks_per_quarter > 0
    &&& sampling_rate <= u64::MAX
    &&& match found {
        Some((t, (tempo, cycles))) => {
            &&& tempo@ > 0
            &&& (tick - t) * sampling_rate * 60 <= u64::MAX
            &&& cycle_of_tick(found, tick, sampling_rate, ticks_per_quarter) <= u64::MAX
        },
        None => tick * sampling_rate * 60 <= u64::MAX,
    }
}

/// The entry of the highest key at or below `k`.
pub open spec fn entry_at_or_before<T>(e: Seq<(u32, T)>, k: u32) -> Option<(u32, T)> {
    choose|r: Option<(u32, T)>| at_or_before(e, k, r)
}

/// With increasing keys, one entry only is the one at or before a key.
proof fn lemma_at_or_before_unique<T>(e: Seq<(u32, T)>, k: u32, r: Option<(u32, T)>)
    requires
        keys_increasing(e),
        at_or_before(e, k, r),
    ensures
        entry_at_or_before(e, k) == r,
{
    let c = entry_at_or_before(e, k);
    assert(at_or_before(e, k, c));
    match (r, c) {
        (Some(x), Some(y)) => {
            let i = choose|i: int| 0 <= i < e.len() && e[i] == x;
            let j = choose|j: int| 0 <= j < e.len() && e[j] == y;
            assert(e[i].0 <= e[j].0 && e[j].0 <= e[i].0);
            if i < j {
                assert(e[i].0 < e[j].0);
            } else if j < i {
                assert(e[j].0 < e[i].0);
            }
        },
        (Some(x), None) => {
            let i = choose|i: int| 0 <= i < e.len() && e[i] == x;
            assert(e[i].0 > k);
        },
        (None, Some(y)) => {
            let j = choose|j: int| 0 <= j < e.len() && e[j] == y;
            assert(e[j].0 > k);
        },
        (None, None) => {},
    }
}

/// The messages of one tick put under the cycle `c`, after those already there.
pub open spec fn midi_put(m: Map<u64, Seq<Seq<u8>>>, c: u64, msgs: Seq<MidiSrc>) -> Map<u64, Seq<Seq<u8>>>
    decreases msgs.len(),
{
    if msgs.len() == 0 {
        m
    } else {
        let m1 = midi_put(m, c, msgs.drop_last());
        m1.insert(c, if m1.contains_key(c) { m1[c].push(msgs.last().bytes()) } else { seq![msgs.last().bytes()] })
    }
}

/// The messages of each tick, in order, put under the cycles at which they play.
pub open spec fn midi_fold(
    m: Map<u64, Seq<Seq<u8>>>,
    evs: Seq<(AccumTick, Seq<MidiSrc>)>,
    cycles: Seq<(AccumTick, (TempoValue, u64))>,
    sampling_rate: int,
    ticks_per_quarter: int,
) -> Map<u64, Seq<Seq<u8>>>
    decreases evs.len(),
{
    if evs.len() == 0 {
        m
    } else {
        let tick = evs.last().0;
        let c = cycle_of_tick(entry_at_or_before(cycles, tick), tick, sampling_rate, ticks_per_quarter) as u64;
        midi_put(midi_fold(m, evs.drop_last(), cycles, sampling_rate, ticks_per_quarter), c, evs.last().1)
    }
}

/// Each tempo change put under the cycle at which it plays, with its tick.
pub open spec fn tracking_fold(
    tempos: Seq<(AccumTick, TempoValue)>,
    cycles: Seq<(AccumTick, (TempoValue, u64))>,
    sampling_rate: int,
    ticks_per_quarter: int,
) -> Map<u64, (AccumTick, TempoValue)>
    decreases tempos.len(),
{
    if tempos.len() == 0 {
        Map::empty()
    } else {
        let (tick, tempo) = tempos.last();
        let c = cycle_of_tick(entry_at_or_before(cycles, tick), tick, sampling_rate, ticks_per_quarter) as u64;
        tracking_fold(tempos.drop_last(), cycles, sampling_rate, ticks_per_quarter).insert(c, (tick, tempo))
    }
}

/// The cycle at which the audio reaches the last of the tempo changes: each
/// stretch lasts at the tempo of the change before it (120 before the first).
pub open spec fn cycles_upto(e: Seq<(AccumTick, TempoValue)>, sampling_rate: int, ticks_per_quarter: int) -> int
    decreases e.len(),
{
    if e.len() == 0 {
        0
    } else {
        let d = e.drop_last();
        let prev_tick: int = if d.len() == 0 { 0 } else { d.last().0 as int };
        let prev_tempo: int = if d.len() == 0 { 120 } else { d.last().1@ };
        cycles_upto(d, sampling_rate, ticks_per_quarter)
            + cycles_of_ticks(e.last().0 - prev_tick, sampling_rate, prev_tempo, ticks_per_quarter)
    }
}

/// The last step of `cycles_upto` stays within 64 bits and divides by no zero.
pub open spec fn cycle_step_fits(e: Seq<(AccumTick, TempoValue)>, sampling_rate: int, ticks_per_quarter: int) -> bool {
    let d = e.drop_last();
    let prev_tick: int = if d.len() == 0 { 0 } else { d.last().0 as int };
    let prev_tempo: int = if d.len() == 0 { 120 } else { d.last().1@ };
    &&& prev_tempo > 0
    &&& (e.last().0 - prev_tick) * sampling_rate * 60 <= u64::MAX
    &&& cycles_upto(e, sampling_rate, ticks_per_quarter) <= u64::MAX
}

/// The cycle table of the tempo changes: each under its tick, with the cycle
/// at which it starts.
pub open spec fn cycle_map(e: Seq<(AccumTick, TempoValue)>, sampling_rate: int, ticks_per_quarter: int) -> Map<AccumTick, (TempoValue, u64)>
    decreases e.len(),
{
    if e.len() == 0 {
        Map::empty()
    } else {
        cycle_map(e.drop_last(), sampling_rate, ticks_per_quarter).insert(
            e.last().0, (e.last().1, cycles_upto(e, sampling_rate, ticks_per_quarter) as u64))
    }
}

/// Each stretch of audio cycles is no shorter than nothing.
proof fn lemma_cycles_upto_nonneg(e: Seq<(AccumTick, TempoValue)>, sr: int, tpq: int)
    requires
        keys_increasing(e),
        0 <= sr,
        0 < tpq,
        forall|k: int| 1 <= k <= e.len() ==> cycle_step_fits(#[trigger] e.take(k), sr, tpq),
    ensures
        0 <= cycles_upto(e, sr, tpq),
    decreases e.len(),
{
    if e.len() > 0 {
        let d = e.drop_last();
        assert forall|k: int| 1 <= k <= d.len() implies cycle_step_fits(#[trigger] d.take(k), sr, tpq) by {
            assert(d.take(k) =~= e.take(k));
        }
        lemma_cycles_upto_nonneg(d, sr, tpq);
        assert(e.take(e.len() as int) =~= e);
        assert(cycle_step_fits(e.take(e.len() as int), sr, tpq));
        let prev_tick: int = if d.len() == 0 { 0 } else { d.last().0 as int };
        let prev_tempo: int = if d.len() == 0 { 120 } else { d.last().1@ };
        if d.len() > 0 {
            assert(d.last() == e[e.len() - 2]);
            assert(e[e.len() - 2].0 < e[e.len() - 1].0);
        }
        let x = (e.last().0 - prev_tick) * sr * 60;
        assert(0 <= x) by (nonlinear_arith)
            requires x == (e.last().0 - prev_tick) * sr * 60, e.last().0 - prev_tick >= 0, sr >= 0;
        assert(0 <= x / prev_tempo / tpq) by (nonlinear_arith)
            requires 0 <= x, 0 < prev_tempo, 0 < tpq;
    }
}

/// The cycle table holds each tempo change under its tick, with the cycle at
/// which the tempo changes up to that one bring the audio.
proof fn lemma_cycle_map_at(e: Seq<(AccumTick, TempoValue)>, sr: int, tpq: int, j: int)
    requires
        keys_increasing(e),
        0 <= j < e.len(),
    ensures
        cycle_map(e, sr, tpq).contains_key(e[j].0),
        cycle_map(e, sr, tpq)[e[j].0] == (e[j].1, cycles_upto(e.take(j + 1), sr, tpq) as u64),
    decreases e.len(),
{
    let d = e.drop_last();
    if j == e.len() - 1 {
        assert(e.take(j + 1) =~= e);
    } else {
        assert(keys_increasing(d)) by {
            assert forall|a: int, b: int| 0 <= a < b < d.len() implies (#[trigger] d[a]).0 < (#[trigger] d[b]).0 by {
                assert(d[a] == e[a] && d[b] == e[b]);
            }
        }
        lemma_cycle_map_at(d, sr, tpq, j);
        assert(d[j] == e[j]);
        assert(d.take(j + 1) =~= e.take(j + 1));
        assert(e[j].0 < e[e.len() - 1].0);
    }
}

/// The cycle table of tempo changes times each stretch at the tempo in force
/// in it: the first change comes after its ticks at the default tempo of 120
/// beats a minute, and each later change after the ticks since the change
/// before it at that change's own tempo, with `tpq` ticks a beat and `sr`
/// cycles a second.
pub proof fn law_cycle_table_steps(e: Seq<(AccumTick, TempoValue)>, sr: int, tpq: int)
    requires
        keys_increasing(e),
        0 <= sr,
        0 < tpq,
        forall|k: int| 1 <= k <= e.len() ==> cycle_step_fits(#[trigger] e.take(k), sr, tpq),
    ensures
        forall|i: int| 0 <= i < e.len() ==> cycle_map(e, sr, tpq).contains_key(#[trigger] e[i].0)
            && cycle_map(e, sr, tpq)[e[i].0].0 == e[i].1,
        e.len() > 0 ==> cycle_map(e, sr, tpq)[e[0].0].1 == e[0].0 * sr * 60 / 120 / tpq,
        forall|i: int| 0 < i < e.len() ==> #[trigger] cycle_map(e, sr, tpq)[e[i].0].1
            == cycle_map(e, sr, tpq)[e[i - 1].0].1 + (e[i].0 - e[i - 1].0) * sr * 60 / e[i - 1].1@ / tpq,
{
    let m = cycle_map(e, sr, tpq);
    assert forall|i: int| 0 <= i < e.len() implies m.contains_key(#[trigger] e[i].0) && m[e[i].0].0 == e[i].1 by {
        lemma_cycle_map_at(e, sr, tpq, i);
    }
    assert forall|k: int| 0 <= k <= e.len() implies 0 <= #[trigger] cycles_upto(e.take(k), sr, tpq) <= u64::MAX by {
        let t = e.take(k);
        assert(keys_increasing(t)) by {
            assert forall|a: int, b: int| 0 <= a < b < t.len() implies (#[trigger] t[a]).0 < (#[trigger] t[b]).0 by {
                assert(t[a] == e[a] && t[b] == e[b]);
            }
        }
        assert forall|q: int| 1 <= q <= t.len() implies cycle_step_fits(#[trigger] t.take(q), sr, tpq) by {
            assert(t.take(q) =~= e.take(q));
        }
        lemma_cycles_upto_nonneg(t, sr, tpq);
        if k > 0 {
            assert(t.take(k) =~= t);
            assert(cycle_step_fits(e.take(k), sr, tpq));
        } else {
            assert(t =~= Seq::<(AccumTick, TempoValue)>::empty());
        }
    }
    if e.len() > 0 {
        lemma_cycle_map_at(e, sr, tpq, 0);
        let t = e.take(1);
        assert(t.drop_last() =~= Seq::<(AccumTick, TempoValue)>::empty());
        assert(t.last() == e[0]);
        assert(t.drop_last().len() == 0);
        assert(cycles_upto(t.drop_last(), sr, tpq) == 0);
        assert(cycles_upto(t, sr, tpq) == cycles_of_ticks(e[0].0 as int, sr, 120, tpq));
    }
    assert forall|i: int| 0 < i < e.len() implies #[trigger] m[e[i].0].1
        == m[e[i - 1].0].1 + (e[i].0 - e[i - 1].0) * sr * 60 / e[i - 1].1@ / tpq by {
        lemma_cycle_map_at(e, sr, tpq, i);
        lemma_cycle_map_at(e, sr, tpq, i - 1);
        let t = e.take(i + 1);
        assert(t.drop_last() =~= e.take(i));
        assert(t.last() == e[i]);
        assert(e.take(i).last() == e[i - 1]);
        assert(0 <= cycles_upto(e.take(i), sr, tpq) <= u64::MAX);
        assert(0 <= cycles_upto(e.take(i + 1), sr, tpq) <= u64::MAX);
    }
}

/// The cycle at which an accumulated tick plays, read from a cycle table:
/// before the first entry, the ticks last at the default tempo of 120 beats a
/// minute; in the stretch from an entry to the next, the cycle is the entry's
/// cycle plus the ticks since the entry at the entry's tempo.
pub proof fn law_cycle_of_tick_in_stretch(c: Seq<(AccumTick, (TempoValue, u64))>, tick: AccumTick, sr: int, tpq: int)
    requires
        keys_increasing(c),
    ensures
        (c.len() == 0 || tick < c[0].0) ==> cycle_of_tick(entry_at_or_before(c, tick), tick, sr, tpq) == tick * sr * 60 / 120 / tpq,
        forall|i: int| #![trigger c[i]] 0 <= i < c.len() && c[i].0 <= tick && (i + 1 == c.len() || tick < c[i + 1].0)
            ==> cycle_of_tick(entry_at_or_before(c, tick), tick, sr, tpq) == c[i].1.1 + (tick - c[i].0) * sr * 60 / c[i].1.0@ / tpq,
{
    if c.len() == 0 || tick < c[0].0 {
        assert forall|j: int| 0 <= j < c.len() implies (#[trigger] c[j]).0 > tick by {
            if j > 0 {
                assert(c[0].0 < c[j].0);
            }
        }
        lemma_at_or_before_unique(c, tick, None);
    }
    assert forall|i: int| #![trigger c[i]] 0 <= i < c.len() && c[i].0 <= tick && (i + 1 == c.len() || tick < c[i + 1].0)
        implies cycle_of_tick(entry_at_or_before(c, tick), tick, sr, tpq) == c[i].1.1 + (tick - c[i].0) * sr * 60 / c[i].1.0@ / tpq by {
        assert forall|j: int| 0 <= j < c.len() && c[j].0 <= tick implies (#[trigger] c[j]).0 <= c[i].0 by {
            if j > i {
                if j > i + 1 {
                    assert(c[i + 1].0 < c[j].0);
                }
            } else if j < i {
                assert(c[j].0 < c[i].0);
            }
        }
        assert(c.contains(c[i]));
        lemma_at_or_before_unique(c, tick, Some(c[i]));
    }
}

/// The tick of the score at an audio cycle, read from a tracking table (with
/// 240 ticks a beat): before the first entry, the cycles last at the default
/// tempo of 120 beats a minute; in the stretch from an entry to the next, the
/// tick is the entry's tick plus the cycles since the entry at the entry's
/// tempo.
pub proof fn law_tick_of_cycle_in_stretch(c: Seq<(u64, (AccumTick, TempoValue))>, cycle: u64, sr: u32)
    requires
        keys_increasing_wide(c),
    ensures
        (c.len() == 0 || cycle < c[0].0) ==> tick_of_cycle(entry_at_or_before_wide(c, cycle), cycle, sr)
            == ((cycle * 120 * 240 / (sr as int) / 60) as u32) as int,
        forall|i: int| #![trigger c[i]] 0 <= i < c.len() && c[i].0 <= cycle && (i + 1 == c.len() || cycle < c[i + 1].0)
            ==> tick_of_cycle(entry_at_or_before_wide(c, cycle), cycle, sr)
                == c[i].1.0 + ((((cycle - c[i].0) * c[i].1.1@ * 240) / (sr as int) / 60) as u32),
{
    if c.len() == 0 || cycle < c[0].0 {
        assert forall|j: int| 0 <= j < c.len() implies (#[trigger] c[j]).0 > cycle by {
            if j > 0 {
                assert(c[0].0 < c[j].0);
            }
        }
        lemma_at_or_before_wide_unique(c, cycle, None);
    }
    assert forall|i: int| #![trigger c[i]] 0 <= i < c.len() && c[i].0 <= cycle && (i + 1 == c.len() || cycle < c[i + 1].0)
        implies tick_of_cycle(entry_at_or_before_wide(c, cycle), cycle, sr)
            == c[i].1.0 + ((((cycle - c[i].0) * c[i].1.1@ * 240) / (sr as int) / 60) as u32) by {
        assert forall|j: int| 0 <= j < c.len() && c[j].0 <= cycle implies (#[trigger] c[j]).0 <= c[i].0 by {
            if j > i {
                if j > i + 1 {
                    assert(c[i + 1].0 < c[j].0);
                }
            } else if j < i {
                assert(c[j].0 < c[i].0);
            }
        }
        assert(c.contains(c[i]));
        lemma_at_or_before_wide_unique(c, cycle, Some(c[i]));
    }
}

/// The tick of the score at an accumulated tick, read from the chunks by
/// accumulated tick: before the first chunk, the accumulated tick itself; in
/// the stretch from a chunk to the next, as far into the chunk as the
/// accumulated tick is past the chunk's start.
pub proof fn law_tick_of_accum_in_chunk(c: Seq<(AccumTick, Chunk)>, tick: AccumTick)
    requires
        keys_increasing(c),
    ensures
        (c.len() == 0 || tick < c[0].0) ==> tick_of_accum(entry_at_or_before(c, tick), tick) == tick,
        forall|i: int| #![trigger c[i]] 0 <= i < c.len() && c[i].0 <= tick && (i + 1 == c.len() || tick < c[i + 1].0)
            ==> tick_of_accum(entry_at_or_before(c, tick), tick) == c[i].1.start() + (tick - c[i].0),
{
    if c.len() == 0 || tick < c[0].0 {
        assert forall|j: int| 0 <= j < c.len() implies (#[trigger] c[j]).0 > tick by {
            if j > 0 {
                assert(c[0].0 < c[j].0);
            }
        }
        lemma_at_or_before_unique(c, tick, None);
    }
    assert forall|i: int| #![trigger c[i]] 0 <= i < c.len() && c[i].0 <= tick && (i + 1 == c.len() || tick < c[i + 1].0)
        implies tick_of_accum(entry_at_or_before(c, tick), tick) == c[i].1.start() + (tick - c[i].0) by {
        assert forall|j: int| 0 <= j < c.len() && c[j].0 <= tick implies (#[trigger] c[j]).0 <= c[i].0 by {
            if j > i {
                if j > i + 1 {
                    assert(c[i + 1].0 < c[j].0);
                }
            } else if j < i {
                assert(c[j].0 < c[i].0);
            }
        }
        assert(c.contains(c[i]));
        lemma_at_or_before_unique(c, tick, Some(c[i]));
    }
}

/// The messages of the notes and pedals by accumulated tick, the tempo
/// changes, and the chunks of the score by accumulated tick.
pub struct MidiEvents {
    events: BTreeMap<AccumTick, Vec<MidiSrc>>,
    tempo_table: Store<AccumTick, TempoValue, ()>,
    chunks: Store<AccumTick, Chunk, ()>,
}

/// The messages of a map of events, by increasing tick.
pub open spec fn event_list(m: &BTreeMap<AccumTick, Vec<MidiSrc>>) -> Seq<(AccumTick, Seq<MidiSrc>)> {
    vstd::std_specs::btree::into_iter(vstd::std_specs::btree::spec_btree_map_iter(m)).map_values(
        |kv: (AccumTick, Vec<MidiSrc>)| (kv.0, kv.1@))
}

impl MidiEvents {
    /// The messages under each accumulated tick.
    pub closed spec fn events_map(&self) -> Map<AccumTick, Seq<MidiSrc>> {
        self.events@.map_values(|v: Vec<MidiSrc>| v@)
    }

    /// The messages by increasing tick.
    pub closed spec fn event_seq(&self) -> Seq<(AccumTick, Seq<MidiSrc>)> {
        event_list(&self.events)
    }

    /// The tempo changes by tick.
    pub closed spec fn tempos(&self) -> Seq<(AccumTick, TempoValue)> {
        tempo_table_entries(self.tempo_table)
    }

    /// The chunks by accumulated tick.
    pub closed spec fn chunk_entries(&self) -> Seq<(AccumTick, Chunk)> {
        store_entries(self.chunks)
    }

    /// The tables keep their keys in increasing order.
    pub open spec fn wf(&self) -> bool {
        &&& keys_increasing(self.tempos())
        &&& keys_increasing(self.chunk_entries())
    }

    /// No message and no tempo change yet; the chunks by the accumulated
    /// tick where playing reaches each.
    pub fn new(chunks: &[Chunk]) -> (r: MidiEvents)
        requires
            crate::repeat::chunks_well_formed(chunks@),
            crate::repeat::accum_offset(chunks@) <= u32::MAX,
        ensures
            r.wf(),
            r.events_map() == Map::<AccumTick, Seq<MidiSrc>>::empty(),
            r.tempos() == Seq::<(AccumTick, TempoValue)>::empty(),
            entries_map(r.chunk_entries()) == crate::repeat::accum_map(chunks@),
    {
        let r = MidiEvents { events: BTreeMap::new(), tempo_table: tempo_table_new(), chunks: Chunk::by_accum_tick(chunks) };
        proof {
            assert(r.events_map() =~= Map::<AccumTick, Seq<MidiSrc>>::empty());
            assert(keys_increasing(r.tempos()));
        }
        r
    }

    /// Adds a message at the tick, after those already there.
    pub fn add_midi_event(&mut self, tick: AccumTick, m: MidiSrc)
        ensures
            final(self).events_map() == old(self).events_map().insert(tick,
                if old(self).events_map().contains_key(tick) { old(self).events_map()[tick].push(m) } else { seq![m] }),
            final(self).tempos() == old(self).tempos(),
            final(self).chunk_entries() == old(self).chunk_entries(),
    {
        broadcast use vstd::std_specs::btree::group_btree_axioms;
        let ghost before = self.events@;
        match self.events.remove(&tick) {
            Some(mut found) => {
                found.push(m);
                self.events.insert(tick, found);
            },
            None => {
                let mut v: Vec<MidiSrc> = Vec::new();
                v.push(m);
                self.events.insert(tick, v);
            },
        }
        proof {
            let old_m = old(self).events_map();
            let want = old_m.insert(tick, if old_m.contains_key(tick) { old_m[tick].push(m) } else { seq![m] });
            assert(self.events_map() =~= want);
        }
    }

    /// Puts the tempo change under the tick.
    pub fn add_tempo(&mut self, tick: AccumTick, tempo: TempoValue)
        requires
            old(self).wf(),
        ensures
            final(self).wf(),
            entries_map(final(self).tempos()) == entries_map(old(self).tempos()).insert(tick, tempo),
            final(self).events_map() == old(self).events_map(),
            final(self).chunk_entries() == old(self).chunk_entries(),
    {
        tempo_table_add(&mut self.tempo_table, tick, tempo);
    }

    /// The audio cycles that `tick` ticks last (see `cycles_of_ticks`).
    pub fn tick_to_cycle(tick: u32, sampling_rate: usize, tempo: u16, ticks_per_quarter: u32) -> (r: u64)
        requires
            tempo > 0,
            ticks_per_quarter > 0,
            tick * sampling_rate * 60 <= u64::MAX,
        ensures
            r == cycles_of_ticks(tick as int, sampling_rate as int, tempo as int, ticks_per_quarter as int),
    {
        tick as u64 * sampling_rate as u64 * 60 / tempo as u64 / ticks_per_quarter as u64
    }
}

/// The messages of a cycle with the bytes put after them.
pub open spec fn midi_put_one(m: Map<u64, Seq<Seq<u8>>>, c: u64, bytes: Seq<u8>) -> Map<u64, Seq<Seq<u8>>> {
    m.insert(c, if m.contains_key(c) { m[c].push(bytes) } else { seq![bytes] })
}

/// Puts the bytes of a message under the cycle, after those already there.
fn midi_store_push(s: &mut Store<u64, Vec<Vec<u8>>, ()>, c: u64, bytes: Vec<u8>)
    ensures
        wide_map(midi_entries(*final(s))) == midi_put_one(wide_map(midi_entries(*old(s))), c, bytes@),
{
    let ghost before = wide_map(midi_entries(*s));
    let ghost b = bytes@;
    proof { assert(bytes.deep_view() =~= b); }
    match midi_store_remove(s, c) {
        Some((_, mut found)) => {
            let ghost prev = found.deep_view();
            found.push(bytes);
            proof { assert(found.deep_view() =~= prev.push(b)); }
            midi_store_add(s, c, found);
        },
        None => {
            let mut v: Vec<Vec<u8>> = Vec::new();
            v.push(bytes);
            proof { assert(v.deep_view() =~= seq![b]); }
            midi_store_add(s, c, v);
        },
    }
    proof { assert(wide_map(midi_entries(*s)) =~= midi_put_one(before, c, b)); }
}

impl PlayData {
    /// The bytes of the messages under each cycle.
    pub closed spec fn midi(&self) -> Map<u64, Seq<Seq<u8>>> {
        wide_map(midi_entries(self.midi_data))
    }
}

impl MidiEvents {
    /// The audio cycle at which an accumulated tick plays (see `cycle_of_tick`).
    pub fn accum_tick_to_cycle(cycles: &Store<AccumTick, (TempoValue, u64), ()>, tick: AccumTick, sampling_rate: usize, ticks_per_quarter: u32) -> (r: u64)
        requires
            keys_increasing(cycle_entries(*cycles)),
            cycle_of_tick_fits(entry_at_or_before(cycle_entries(*cycles), tick), tick, sampling_rate as int, ticks_per_quarter as int),
        ensures
            r == cycle_of_tick(entry_at_or_before(cycle_entries(*cycles), tick), tick, sampling_rate as int, ticks_per_quarter as int),
    {
        let found = cycle_table_just_before(cycles, tick);
        proof { lemma_at_or_before_unique(cycle_entries(*cycles), tick, found); }
        match found {
            Some((t, (tempo, at_cycle))) => at_cycle + Self::tick_to_cycle(tick - t, sampling_rate, tempo.value(), ticks_per_quarter),
            None => Self::tick_to_cycle(tick, sampling_rate, TempoValue::default().value(), ticks_per_quarter),
        }
    }

    /// The cycle table of the tempo changes (see `cycle_map`).
    pub fn cycles_by_accum_tick(&self, sampling_rate: usize, ticks_per_quarter: u32) -> (r: Store<AccumTick, (TempoValue, u64), ()>)
        requires
            self.wf(),
            ticks_per_quarter > 0,
            forall|k: int| 1 <= k <= self.tempos().len() ==> cycle_step_fits(#[trigger] self.tempos().take(k), sampling_rate as int, ticks_per_quarter as int),
        ensures
            keys_increasing(cycle_entries(r)),
            entries_map(cycle_entries(r)) == cycle_map(self.tempos(), sampling_rate as int, ticks_per_quarter as int),
    {
        let entries = tempo_table_slice(&self.tempo_table);
        let ghost e = self.tempos();
        let ghost sr = sampling_rate as int;
        let ghost tpq = ticks_per_quarter as int;
        let mut cycles: u64 = 0;
        let mut buf = cycle_table_with_capacity(entries.len());
        let mut prev_tick: AccumTick = 0;
        let mut prev_tempo: u16 = TempoValue::default().value();
        proof {
            reveal(entries_map);
            assert(entries_map(cycle_entries(buf)) =~= Map::<AccumTick, (TempoValue, u64)>::empty());
            assert(e.take(0) =~= Seq::<(AccumTick, TempoValue)>::empty());
        }
        let mut i: usize = 0;
        while i < entries.len()
            invariant
                i <= e.len(),
                entries@ == e,
                keys_increasing(e),
                ticks_per_quarter > 0,
                forall|k: int| 1 <= k <= e.len() ==> cycle_step_fits(#[trigger] e.take(k), sr, tpq),
                sr == sampling_rate as int,
                tpq == ticks_per_quarter as int,
                cycles == cycles_upto(e.take(i as int), sr, tpq),
                prev_tick == if i == 0 { 0 } else { e[i - 1].0 },
                prev_tempo == if i == 0 { 120 } else { e[i - 1].1@ },
                keys_increasing(cycle_entries(buf)),
                entries_map(cycle_entries(buf)) == cycle_map(e.take(i as int), sr, tpq),
            decreases e.len() - i,
        {
            let (tick, tempo) = entries[i];
            let ghost t = e.take(i + 1);
            proof {
                assert(t.drop_last() =~= e.take(i as int));
                assert(t.last() == e[i as int]);
                if i > 0 {
                    assert(e.take(i as int).last() == e[i - 1]);
                    assert(e[i - 1].0 < e[i as int].0);
                }
                assert(cycle_step_fits(t, sr, tpq));
            }
            cycles = cycles + (tick - prev_tick) as u64 * sampling_rate as u64 * 60 / prev_tempo as u64 / ticks_per_quarter as u64;
            cycle_table_add(&mut buf, tick, (tempo, cycles));
            prev_tick = tick;
            prev_tempo = tempo.value();
            i = i + 1;
        }
        proof { assert(e.take(e.len() as int) =~= e); }
        buf
    }

    /// The play data of the events: the bytes of the messages of each tick,
    /// in order, under the cycle at which the tick plays; each tempo change
    /// with its tick under the cycle at which it plays; and the chunks.
    pub fn to_play_data(self, cycles_by_tick: Store<AccumTick, (TempoValue, u64), ()>, sampling_rate: usize, ticks_per_quarter: u32) -> (r: PlayData)
        requires
            self.wf(),
            keys_increasing(cycle_entries(cycles_by_tick)),
            forall|i: int| 0 <= i < self.event_seq().len() ==> cycle_of_tick_fits(
                entry_at_or_before(cycle_entries(cycles_by_tick), (#[trigger] self.event_seq()[i]).0),
                self.event_seq()[i].0, sampling_rate as int, ticks_per_quarter as int),
            forall|i: int| 0 <= i < self.tempos().len() ==> cycle_of_tick_fits(
                entry_at_or_before(cycle_entries(cycles_by_tick), (#[trigger] self.tempos()[i]).0),
                self.tempos()[i].0, sampling_rate as int, ticks_per_quarter as int),
        ensures
            r.midi() == midi_fold(Map::empty(), self.event_seq(), cycle_entries(cycles_by_tick), sampling_rate as int, ticks_per_quarter as int),
            wide_map(r.tracking()) == tracking_fold(self.tempos(), cycle_entries(cycles_by_tick), sampling_rate as int, ticks_per_quarter as int),
            r.chunk_entries() == self.chunk_entries(),
            r.wf(),
    {
        broadcast use vstd::std_specs::btree::group_btree_axioms;
        let ghost cyc = cycle_entries(cycles_by_tick);
        let ghost sr = sampling_rate as int;
        let ghost tpq = ticks_per_quarter as int;
        let ghost evs = self.event_seq();
        let mut midi_data = midi_store_new();
        let mut table = tracking_store_new();
        proof {
            assert(wide_map(midi_entries(midi_data)) =~= Map::<u64, Seq<Seq<u8>>>::empty());
            assert(wide_map(tracking_entries(table)) =~= Map::<u64, (AccumTick, TempoValue)>::empty());
            assert(evs.take(0) =~= Seq::<(AccumTick, Seq<MidiSrc>)>::empty());
        }
        for (tick, events) in it: self.events.iter()
            invariant
                evs == self.event_seq(),
                cyc == cycle_entries(cycles_by_tick),
                keys_increasing(cyc),
                it.seq().len() == evs.len(),
                forall|j: int| 0 <= j < evs.len() ==> *(#[trigger] it.seq()[j]).0 == evs[j].0 && (*it.seq()[j].1)@ == evs[j].1,
                forall|j: int| 0 <= j < evs.len() ==> cycle_of_tick_fits(entry_at_or_before(cyc, (#[trigger] evs[j]).0), evs[j].0, sr, tpq),
                sr == sampling_rate as int,
                tpq == ticks_per_quarter as int,
                wide_map(midi_entries(midi_data)) == midi_fold(Map::empty(), evs.take(it.index() as int), cyc, sr, tpq),
        {
            let ghost k = it.index() as int;
            let c = Self::accum_tick_to_cycle(&cycles_by_tick, *tick, sampling_rate, ticks_per_quarter);
            let ghost before = wide_map(midi_entries(midi_data));
            let mut j: usize = 0;
            while j < events.len()
                invariant
                    j <= events@.len(),
                    wide_map(midi_entries(midi_data)) == midi_put(before, c, events@.take(j as int)),
                decreases events@.len() - j,
            {
                let mut midi: Vec<u8> = Vec::new();
                events[j].render_to(&mut midi);
                midi_store_push(&mut midi_data, c, midi);
                proof {
                    assert(events@.take(j + 1).drop_last() =~= events@.take(j as int));
                    assert(midi@ =~= events@[j as int].bytes());
                }
                j = j + 1;
            }
            proof {
                assert(events@.take(events@.len() as int) =~= events@);
                assert(evs.take(k + 1).drop_last() =~= evs.take(k));
                assert(evs.take(k + 1).last() == evs[k]);
            }
        }
        let entries = tempo_table_slice(&self.tempo_table);
        let ghost tempos = self.tempos();
        let mut i: usize = 0;
        proof { assert(tempos.take(0) =~= Seq::<(AccumTick, TempoValue)>::empty()); }
        while i < entries.len()
            invariant
                i <= tempos.len(),
                entries@ == tempos,
                cyc == cycle_entries(cycles_by_tick),
                keys_increasing(cyc),
                forall|j: int| 0 <= j < tempos.len() ==> cycle_of_tick_fits(entry_at_or_before(cyc, (#[trigger] tempos[j]).0), tempos[j].0, sr, tpq),
                sr == sampling_rate as int,
                tpq == ticks_per_quarter as int,
                wide_map(tracking_entries(table)) == tracking_fold(tempos.take(i as int), cyc, sr, tpq),
                keys_increasing_wide(tracking_entries(table)),
            decreases tempos.len() - i,
        {
            let (tick, tempo) = entries[i];
            let c = Self::accum_tick_to_cycle(&cycles_by_tick, tick, sampling_rate, ticks_per_quarter);
            tracking_store_add(&mut table, c, (tick, tempo));
            proof {
                assert(tempos.take(i + 1).drop_last() =~= tempos.take(i as int));
                assert(tempos.take(i + 1).last() == tempos[i as int]);
            }
            i = i + 1;
        }
        proof {
            assert(tempos.take(tempos.len() as int) =~= tempos);
            assert(evs.take(evs.len() as int) =~= evs);
        }
        PlayData { midi_data, table_for_tracking: table, chunks: self.chunks }
    }
}

} // verus!
