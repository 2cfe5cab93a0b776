//! The stores of a project's items: `Store`s of the `klavier-helper` crate
//! keyed by tick (bars, tempos, pedal changes) and its `BagStore` of notes.
use vstd::prelude::*;
use std::rc::Rc;
use klavier_helper::store::Store;
use klavier_helper::bag_store::BagStore;
use crate::bar::Bar;
use crate::tempo::Tempo;
use crate::ctrl_chg::CtrlChg;
use crate::note::Note;
use crate::project::ModelChangeMetadata;

verus! {

#[verifier::external_type_specification]
#[verifier::external_body]
#[verifier::reject_recursive_types(K)]
#[verifier::reject_recursive_types(T)]
#[verifier::reject_recursive_types(M)]
pub struct ExStore<K: Ord + Copy, T: Clone, M>(Store<K, T, M>);

#[verifier::external_type_specification]
#[verifier::external_body]
#[verifier::reject_recursive_types(K)]
#[verifier::reject_recursive_types(T)]
#[verifier::reject_recursive_types(M)]
pub struct ExBagStore<K, T, M>(BagStore<K, T, M>);

/// Entries sorted by strictly increasing key.
pub open spec fn keys_increasing<T>(e: Seq<(u32, T)>) -> bool {
    forall|i: int, j: int| 0 <= i < j < e.len() ==> (#[trigger] e[i]).0 < (#[trigger] e[j]).0
}

/// Entries as a map from key to value.
#[verifier::opaque]
pub open spec fn entries_map<T>(e: Seq<(u32, T)>) -> Map<u32, T> {
    Map::new(
        |k: u32| exists|i: int| 0 <= i < e.len() && (#[trigger] e[i]).0 == k,
        |k: u32| e[choose|i: int| 0 <= i < e.len() && (#[trigger] e[i]).0 == k].1,
    )
}

/// The value a map had under a key, if any.
pub open spec fn value_at<T>(m: Map<u32, T>, k: u32) -> Option<T> {
    if m.contains_key(k) { Some(m[k]) } else { None }
}

/// Records put into a map one after the other.
pub open spec fn bulk_put<T>(m: Map<u32, T>, recs: Seq<(u32, T)>) -> Map<u32, T>
    decreases recs.len(),
{
    if recs.len() == 0 {
        m
    } else {
        bulk_put(m, recs.drop_last()).insert(recs.last().0, recs.last().1)
    }
}

/// The entries that putting the records one after the other replaces, in order.
pub open spec fn bulk_displaced<T>(m: Map<u32, T>, recs: Seq<(u32, T)>) -> Seq<(u32, T)>
    decreases recs.len(),
{
    if recs.len() == 0 {
        Seq::empty()
    } else {
        let before = bulk_put(m, recs.drop_last());
        let k = recs.last().0;
        bulk_displaced(m, recs.drop_last()) + if before.contains_key(k) { seq![(k, before[k])] } else { Seq::empty() }
    }
}

/// The first step of a change: each `from` key is taken out one after the
/// other; the new entries of those that were there are kept, in order.
pub open spec fn change_taken<T>(m: Map<u32, T>, ft: Seq<(u32, (u32, T))>) -> (Map<u32, T>, Seq<(u32, T)>)
    decreases ft.len(),
{
    if ft.len() == 0 {
        (m, Seq::empty())
    } else {
        let (m1, taken) = change_taken(m, ft.drop_last());
        let k = ft.last().0;
        if m1.contains_key(k) { (m1.remove(k), taken.push(ft.last().1)) } else { (m1, taken) }
    }
}

/// An event that a store keyed by tick logs, with its values as plain values.
pub enum StoreLogEvent<T> {
    Added { added: T, metadata: ModelChangeMetadata },
    Removed(T),
    ClearedAll,
    BulkAddedRemoved { added: Seq<(u32, T)>, removed: Seq<(u32, T)>, metadata: ModelChangeMetadata },
    Changed { from_to: Seq<((u32, T), (u32, T))>, removed: Seq<(u32, T)>, metadata: ModelChangeMetadata },
}

/// An event that a bag store of notes logs, with its notes as plain values.
pub enum BagLogEvent {
    Added { added: Note, metadata: ModelChangeMetadata },
    AddedVec { added: Seq<Note>, metadata: ModelChangeMetadata },
    Removed(Note),
    RemovedVec(Seq<Note>),
    ClearedAll,
    Changed { from_to: Seq<((u32, Note), (u32, Note))>, removed: Seq<(u32, Note)>, metadata: ModelChangeMetadata },
    BulkAddedRemoved { added: Seq<(u32, Note)>, removed: Seq<(u32, Note)>, metadata: ModelChangeMetadata },
}

/// The log of a new store: empty where it holds one, none otherwise.
pub open spec fn new_log<E>(hold_events: bool) -> Option<Seq<E>> {
    if hold_events { Some(Seq::empty()) } else { None }
}

/// A log with an event fired: the event is appended where a log is held.
pub open spec fn fired<E>(log: Option<Seq<E>>, e: E) -> Option<Seq<E>> {
    match log {
        Some(l) => Some(l.push(e)),
        None => None,
    }
}

/// A log with its events forgotten.
pub open spec fn log_cleared<E>(log: Option<Seq<E>>) -> Option<Seq<E>> {
    match log {
        Some(_) => Some(Seq::empty()),
        None => None,
    }
}

/// How many events a log holds (none where no log is held).
pub open spec fn log_len<E>(log: Option<Seq<E>>) -> nat {
    match log {
        Some(l) => l.len(),
        None => 0,
    }
}

/// The pairs a change logs: for each `from` key that was there when its
/// turn came, its entry with the new entry, in order.
pub open spec fn change_pairs<T>(m: Map<u32, T>, ft: Seq<(u32, (u32, T))>) -> Seq<((u32, T), (u32, T))>
    decreases ft.len(),
{
    if ft.len() == 0 {
        Seq::empty()
    } else {
        let m1 = change_taken(m, ft.drop_last()).0;
        let k = ft.last().0;
        change_pairs(m, ft.drop_last()) + if m1.contains_key(k) { seq![((k, m1[k]), ft.last().1)] } else { Seq::empty() }
    }
}

/// What a binary search by key gives in entries whose keys increase: the
/// index of the key, or where it would go.
pub open spec fn find_result<T>(e: Seq<(u32, T)>, key: u32, r: Result<usize, usize>) -> bool {
    match r {
        Ok(i) => i < e.len() && e[i as int].0 == key,
        Err(i) => i <= e.len() && (forall|j: int| 0 <= j < i ==> (#[trigger] e[j]).0 < key)
            && (forall|j: int| i <= j < e.len() ==> (#[trigger] e[j]).0 > key),
    }
}

/// The entries a store of bars holds, in order.
pub uninterp spec fn bar_entries(s: Store<u32, Bar, ModelChangeMetadata>) -> Seq<(u32, Bar)>;

/// `Store::new`: a store of bars with no entries (logging events when
/// `hold_events`).
#[verifier::external_body]
pub(crate) fn bar_store_new(hold_events: bool) -> (r: Store<u32, Bar, ModelChangeMetadata>)
    ensures
        bar_entries(r) == Seq::<(u32, Bar)>::empty(),
        bar_event_log(r) == new_log::<StoreLogEvent<Bar>>(hold_events),
{
    Store::new(hold_events)
}

/// `Store`'s `Deref`: the entries of a store of bars, in order.
#[verifier::external_body]
pub(crate) fn bar_store_slice(s: &Store<u32, Bar, ModelChangeMetadata>) -> (r: &[(u32, Bar)])
    ensures
        r@ == bar_entries(*s),
{
    &**s
}

/// `Store::find`: a binary search by key in a store of bars; with the keys
/// in increasing order, `Ok` with the index of the key, else `Err` with the
/// index where it would go.
#[verifier::external_body]
pub(crate) fn bar_store_find(s: &Store<u32, Bar, ModelChangeMetadata>, key: u32) -> (r: Result<usize, usize>)
    requires
        keys_increasing(bar_entries(*s)),
    ensures
        find_result(bar_entries(*s), key, r),
{
    s.find(&key)
}

/// `Store::add`: puts the value under the key in a store of bars, giving
/// back the value the key had; the keys stay in increasing order.
/// Where it logs events, it logs the value replaced, if any, as removed,
/// then the value as added.
#[verifier::external_body]
pub(crate) fn bar_store_add(s: &mut Store<u32, Bar, ModelChangeMetadata>, key: u32, value: Bar, metadata: ModelChangeMetadata) -> (r: Option<Bar>)
    requires
        keys_increasing(bar_entries(*old(s))),
    ensures
        keys_increasing(bar_entries(*final(s))),
        entries_map(bar_entries(*final(s))) == entries_map(bar_entries(*old(s))).insert(key, value),
        r == value_at(entries_map(bar_entries(*old(s))), key),
        bar_event_log(*final(s)) == fired(
            match r {
                Some(v) => fired(bar_event_log(*old(s)), StoreLogEvent::Removed(v)),
                None => bar_event_log(*old(s)),
            },
            (StoreLogEvent::Added { added: value, metadata }),
        ),
{
    s.add(key, value, metadata)
}

/// `Store::remove`: takes the key out of a store of bars, giving back its
/// entry if it had one; the keys stay in increasing order.
/// Where it logs events, it logs the value taken out, if any, as removed.
#[verifier::external_body]
pub(crate) fn bar_store_remove(s: &mut Store<u32, Bar, ModelChangeMetadata>, key: u32) -> (r: Option<(u32, Bar)>)
    requires
        keys_increasing(bar_entries(*old(s))),
    ensures
        keys_increasing(bar_entries(*final(s))),
        entries_map(bar_entries(*final(s))) == entries_map(bar_entries(*old(s))).remove(key),
        r == match value_at(entries_map(bar_entries(*old(s))), key) {
            Some(v) => Some((key, v)),
            None => None,
        },
        bar_event_log(*final(s)) == match r {
            Some(e) => fired(bar_event_log(*old(s)), StoreLogEvent::Removed(e.1)),
            None => bar_event_log(*old(s)),
        },
{
    s.remove(&key)
}

/// `Store::bulk_add`: puts the records one after the other into a store of
/// bars, giving back the entries replaced, in order; where it logs events,
/// it logs the records with the entries replaced.
#[verifier::external_body]
pub(crate) fn bar_store_bulk_add(s: &mut Store<u32, Bar, ModelChangeMetadata>, recs: Vec<(u32, Bar)>, metadata: ModelChangeMetadata) -> (r: Vec<(u32, Bar)>)
    requires
        keys_increasing(bar_entries(*old(s))),
    ensures
        keys_increasing(bar_entries(*final(s))),
        entries_map(bar_entries(*final(s))) == bulk_put(entries_map(bar_entries(*old(s))), recs@),
        r@ == bulk_displaced(entries_map(bar_entries(*old(s))), recs@),
        bar_event_log(*final(s)) == fired(bar_event_log(*old(s)), (StoreLogEvent::BulkAddedRemoved { added: recs@, removed: r@, metadata })),
{
    s.bulk_add(recs, metadata)
}

/// `Store::change`: in a store of bars, takes out each `from` key, then puts
/// in the new entries of the keys that were there, giving back the entries
/// those replace, in order. Where it logs events, it logs each `from` entry
/// that was there with its new entry, and the entries replaced.
#[verifier::external_body]
pub(crate) fn bar_store_change(s: &mut Store<u32, Bar, ModelChangeMetadata>, from_to: &Vec<(u32, (u32, Bar))>, metadata: ModelChangeMetadata) -> (r: Vec<(u32, Bar)>)
    requires
        keys_increasing(bar_entries(*old(s))),
    ensures
        keys_increasing(bar_entries(*final(s))),
        entries_map(bar_entries(*final(s))) == bulk_put(change_taken(entries_map(bar_entries(*old(s))), from_to@).0,
            change_taken(entries_map(bar_entries(*old(s))), from_to@).1),
        r@ == bulk_displaced(change_taken(entries_map(bar_entries(*old(s))), from_to@).0,
            change_taken(entries_map(bar_entries(*old(s))), from_to@).1),
        bar_event_log(*final(s)) == fired(bar_event_log(*old(s)), (StoreLogEvent::Changed {
            from_to: change_pairs(entries_map(bar_entries(*old(s))), from_to@),
            removed: r@,
            metadata,
        })),
{
    let refs: Vec<(&u32, (u32, Bar))> = from_to.iter().map(|(k, to)| (k, *to)).collect();
    s.change(&refs, metadata)
}

/// The events a store of bars holds logged, with their values as plain
/// values; none where it holds no log.
pub uninterp spec fn bar_event_log(s: Store<u32, Bar, ModelChangeMetadata>) -> Option<Seq<StoreLogEvent<Bar>>>;

/// `Store::clear_events`: forgets the events logged by a store of bars (the
/// source clears the `Vec` of events where the store holds one).
#[verifier::external_body]
pub(crate) fn bar_store_clear_events(s: &mut Store<u32, Bar, ModelChangeMetadata>)
    ensures
        bar_entries(*final(s)) == bar_entries(*old(s)),
        bar_event_log(*final(s)) == log_cleared(bar_event_log(*old(s))),
{
    s.clear_events()
}

/// The entries a store of tempos holds, in order.
pub uninterp spec fn tempo_entries(s: Store<u32, Tempo, ModelChangeMetadata>) -> Seq<(u32, Tempo)>;

/// `Store::new`: a store of tempos with no entries (logging events when
/// `hold_events`).
#[verifier::external_body]
pub(crate) fn tempo_store_new(hold_events: bool) -> (r: Store<u32, Tempo, ModelChangeMetadata>)
    ensures
        tempo_entries(r) == Seq::<(u32, Tempo)>::empty(),
        tempo_event_log(r) == new_log::<StoreLogEvent<Tempo>>(hold_events),
{
    Store::new(hold_events)
}

/// `Store`'s `Deref`: the entries of a store of tempos, in order.
#[verifier::external_body]
pub(crate) fn tempo_store_slice(s: &Store<u32, Tempo, ModelChangeMetadata>) -> (r: &[(u32, Tempo)])
    ensures
        r@ == tempo_entries(*s),
{
    &**s
}

/// `Store::find`: a binary search by key in a store of tempos; with the keys
/// in increasing order, `Ok` with the index of the key, else `Err` with the
/// index where it would go.
#[verifier::external_body]
pub(crate) fn tempo_store_find(s: &Store<u32, Tempo, ModelChangeMetadata>, key: u32) -> (r: Result<usize, usize>)
    requires
        keys_increasing(tempo_entries(*s)),
    ensures
        find_result(tempo_entries(*s), key, r),
{
    s.find(&key)
}

/// `Store::add`: puts the value under the key in a store of tempos, giving
/// back the value the key had; the keys stay in increasing order.
/// Where it logs events, it logs the value replaced, if any, as removed,
/// then the value as added.
#[verifier::external_body]
pub(crate) fn tempo_store_add(s: &mut Store<u32, Tempo, ModelChangeMetadata>, key: u32, value: Tempo, metadata: ModelChangeMetadata) -> (r: Option<Tempo>)
    requires
        keys_increasing(tempo_entries(*old(s))),
    ensures
        keys_increasing(tempo_entries(*final(s))),
        entries_map(tempo_entries(*final(s))) == entries_map(tempo_entries(*old(s))).insert(key, value),
        r == value_at(entries_map(tempo_entries(*old(s))), key),
        tempo_event_log(*final(s)) == fired(
            match r {
                Some(v) => fired(tempo_event_log(*old(s)), StoreLogEvent::Removed(v)),
                None => tempo_event_log(*old(s)),
            },
            (StoreLogEvent::Added { added: value, metadata }),
        ),
{
    s.add(key, value, metadata)
}

/// `Store::remove`: takes the key out of a store of tempos, giving back its
/// entry if it had one; the keys stay in increasing order.
/// Where it logs events, it logs the value taken out, if any, as removed.
#[verifier::external_body]
pub(crate) fn tempo_store_remove(s: &mut Store<u32, Tempo, ModelChangeMetadata>, key: u32) -> (r: Option<(u32, Tempo)>)
    requires
        keys_increasing(tempo_entries(*old(s))),
    ensures
        keys_increasing(tempo_entries(*final(s))),
        entries_map(tempo_entries(*final(s))) == entries_map(tempo_entries(*old(s))).remove(key),
        r == match value_at(entries_map(tempo_entries(*old(s))), key) {
            Some(v) => Some((key, v)),
            None => None,
        },
        tempo_event_log(*final(s)) == match r {
            Some(e) => fired(tempo_event_log(*old(s)), StoreLogEvent::Removed(e.1)),
            None => tempo_event_log(*old(s)),
        },
{
    s.remove(&key)
}

/// `Store::bulk_add`: puts the records one after the other into a store of
/// tempos, giving back the entries replaced, in order.
/// Where it logs events, it logs the records with the entries replaced.
#[verifier::external_body]
pub(crate) fn tempo_store_bulk_add(s: &mut Store<u32, Tempo, ModelChangeMetadata>, recs: Vec<(u32, Tempo)>, metadata: ModelChangeMetadata) -> (r: Vec<(u32, Tempo)>)
    requires
        keys_increasing(tempo_entries(*old(s))),
    ensures
        keys_increasing(tempo_entries(*final(s))),
        entries_map(tempo_entries(*final(s))) == bulk_put(entries_map(tempo_entries(*old(s))), recs@),
        r@ == bulk_displaced(entries_map(tempo_entries(*old(s))), recs@),
        tempo_event_log(*final(s)) == fired(tempo_event_log(*old(s)), (StoreLogEvent::BulkAddedRemoved { added: recs@, removed: r@, metadata })),
{
    s.bulk_add(recs, metadata)
}

/// `Store::change`: in a store of tempos, takes out each `from` key, then puts
/// in the new entries of the keys that were there, giving back the entries
/// those replace, in order. Where it logs events, it logs each `from` entry
/// that was there with its new entry, and the entries replaced.
#[verifier::external_body]
pub(crate) fn tempo_store_change(s: &mut Store<u32, Tempo, ModelChangeMetadata>, from_to: &Vec<(u32, (u32, Tempo))>, metadata: ModelChangeMetadata) -> (r: Vec<(u32, Tempo)>)
    requires
        keys_increasing(tempo_entries(*old(s))),
    ensures
        keys_increasing(tempo_entries(*final(s))),
        entries_map(tempo_entries(*final(s))) == bulk_put(change_taken(entries_map(tempo_entries(*old(s))), from_to@).0,
            change_taken(entries_map(tempo_entries(*old(s))), from_to@).1),
        r@ == bulk_displaced(change_taken(entries_map(tempo_entries(*old(s))), from_to@).0,
            change_taken(entries_map(tempo_entries(*old(s))), from_to@).1),
        tempo_event_log(*final(s)) == fired(tempo_event_log(*old(s)), (StoreLogEvent::Changed {
            from_to: change_pairs(entries_map(tempo_entries(*old(s))), from_to@),
            removed: r@,
            metadata,
        })),
{
    let refs: Vec<(&u32, (u32, Tempo))> = from_to.iter().map(|(k, to)| (k, *to)).collect();
    s.change(&refs, metadata)
}

/// The events a store of tempos holds logged, with their values as plain
/// values; none where it holds no log.
pub uninterp spec fn tempo_event_log(s: Store<u32, Tempo, ModelChangeMetadata>) -> Option<Seq<StoreLogEvent<Tempo>>>;

/// `Store::clear_events`: forgets the events logged by a store of tempos (the
/// source clears the `Vec` of events where the store holds one).
#[verifier::external_body]
pub(crate) fn tempo_store_clear_events(s: &mut Store<u32, Tempo, ModelChangeMetadata>)
    ensures
        tempo_entries(*final(s)) == tempo_entries(*old(s)),
        tempo_event_log(*final(s)) == log_cleared(tempo_event_log(*old(s))),
{
    s.clear_events()
}

/// The entries a store of pedal changes holds, in order.
pub uninterp spec fn ctrl_entries(s: Store<u32, CtrlChg, ModelChangeMetadata>) -> Seq<(u32, CtrlChg)>;

/// `Store::new`: a store of pedal changes with no entries (logging events when
/// `hold_events`).
#[verifier::external_body]
pub(crate) fn ctrl_store_new(hold_events: bool) -> (r: Store<u32, CtrlChg, ModelChangeMetadata>)
    ensures
        ctrl_entries(r) == Seq::<(u32, CtrlChg)>::empty(),
        ctrl_event_log(r) == new_log::<StoreLogEvent<CtrlChg>>(hold_events),
{
    Store::new(hold_events)
}

/// `Store`'s `Deref`: the entries of a store of pedal changes, in order.
#[verifier::external_body]
pub(crate) fn ctrl_store_slice(s: &Store<u32, CtrlChg, ModelChangeMetadata>) -> (r: &[(u32, CtrlChg)])
    ensures
        r@ == ctrl_entries(*s),
{
    &**s
}

/// `Store::find`: a binary search by key in a store of pedal changes; with the keys
/// in increasing order, `Ok` with the index of the key, else `Err` with the
/// index where it would go.
#[verifier::external_body]
pub(crate) fn ctrl_store_find(s: &Store<u32, CtrlChg, ModelChangeMetadata>, key: u32) -> (r: Result<usize, usize>)
    requires
        keys_increasing(ctrl_entries(*s)),
    ensures
        find_result(ctrl_entries(*s), key, r),
{
    s.find(&key)
}

/// `Store::add`: puts the value under the key in a store of pedal changes, giving
/// back the value the key had; the keys stay in increasing order.
/// Where it logs events, it logs the value replaced, if any, as removed,
/// then the value as added.
#[verifier::external_body]
pub(crate) fn ctrl_store_add(s: &mut Store<u32, CtrlChg, ModelChangeMetadata>, key: u32, value: CtrlChg, metadata: ModelChangeMetadata) -> (r: Option<CtrlChg>)
    requires
        keys_increasing(ctrl_entries(*old(s))),
    ensures
        keys_increasing(ctrl_entries(*final(s))),
        entries_map(ctrl_entries(*final(s))) == entries_map(ctrl_entries(*old(s))).insert(key, value),
        r == value_at(entries_map(ctrl_entries(*old(s))), key),
        ctrl_event_log(*final(s)) == fired(
            match r {
                Some(v) => fired(ctrl_event_log(*old(s)), StoreLogEvent::Removed(v)),
                None => ctrl_event_log(*old(s)),
            },
            (StoreLogEvent::Added { added: value, metadata }),
        ),
{
    s.add(key, value, metadata)
}

/// `Store::remove`: takes the key out of a store of pedal changes, giving back its
/// entry if it had one; the keys stay in increasing order.
/// Where it logs events, it logs the value taken out, if any, as removed.
#[verifier::external_body]
pub(crate) fn ctrl_store_remove(s: &mut Store<u32, CtrlChg, ModelChangeMetadata>, key: u32) -> (r: Option<(u32, CtrlChg)>)
    requires
        keys_increasing(ctrl_entries(*old(s))),
    ensures
        keys_increasing(ctrl_entries(*final(s))),
        entries_map(ctrl_entries(*final(s))) == entries_map(ctrl_entries(*old(s))).remove(key),
        r == match value_at(entries_map(ctrl_entries(*old(s))), key) {
            Some(v) => Some((key, v)),
            None => None,
        },
        ctrl_event_log(*final(s)) == match r {
            Some(e) => fired(ctrl_event_log(*old(s)), StoreLogEvent::Removed(e.1)),
            None => ctrl_event_log(*old(s)),
        },
{
    s.remove(&key)
}

/// `Store::bulk_add`: puts the records one after the other into a store of
/// pedal changes, giving back the entries replaced, in order.
/// Where it logs events, it logs the records with the entries replaced.
#[verifier::external_body]
pub(crate) fn ctrl_store_bulk_add(s: &mut Store<u32, CtrlChg, ModelChangeMetadata>, recs: Vec<(u32, CtrlChg)>, metadata: ModelChangeMetadata) -> (r: Vec<(u32, CtrlChg)>)
    requires
        keys_increasing(ctrl_entries(*old(s))),
    ensures
        keys_increasing(ctrl_entries(*final(s))),
        entries_map(ctrl_entries(*final(s))) == bulk_put(entries_map(ctrl_entries(*old(s))), recs@),
        r@ == bulk_displaced(entries_map(ctrl_entries(*old(s))), recs@),
        ctrl_event_log(*final(s)) == fired(ctrl_event_log(*old(s)), (StoreLogEvent::BulkAddedRemoved { added: recs@, removed: r@, metadata })),
{
    s.bulk_add(recs, metadata)
}

/// `Store::change`: in a store of pedal changes, takes out each `from` key, then puts
/// in the new entries of the keys that were there, giving back the entries
/// those replace, in order. Where it logs events, it logs each `from` entry
/// that was there with its new entry, and the entries replaced.
#[verifier::external_body]
pub(crate) fn ctrl_store_change(s: &mut Store<u32, CtrlChg, ModelChangeMetadata>, from_to: &Vec<(u32, (u32, CtrlChg))>, metadata: ModelChangeMetadata) -> (r: Vec<(u32, CtrlChg)>)
    requires
        keys_increasing(ctrl_entries(*old(s))),
    ensures
        keys_increasing(ctrl_entries(*final(s))),
        entries_map(ctrl_entries(*final(s))) == bulk_put(change_taken(entries_map(ctrl_entries(*old(s))), from_to@).0,
            change_taken(entries_map(ctrl_entries(*old(s))), from_to@).1),
        r@ == bulk_displaced(change_taken(entries_map(ctrl_entries(*old(s))), from_to@).0,
            change_taken(entries_map(ctrl_entries(*old(s))), from_to@).1),
        ctrl_event_log(*final(s)) == fired(ctrl_event_log(*old(s)), (StoreLogEvent::Changed {
            from_to: change_pairs(entries_map(ctrl_entries(*old(s))), from_to@),
            removed: r@,
            metadata,
        })),
{
    let refs: Vec<(&u32, (u32, CtrlChg))> = from_to.iter().map(|(k, to)| (k, *to)).collect();
    s.change(&refs, metadata)
}

/// The events a store of pedal changes holds logged, with their values as plain
/// values; none where it holds no log.
pub uninterp spec fn ctrl_event_log(s: Store<u32, CtrlChg, ModelChangeMetadata>) -> Option<Seq<StoreLogEvent<CtrlChg>>>;

/// `Store::clear_events`: forgets the events logged by a store of pedal
/// changes (the source clears the `Vec` of events where the store holds one).
#[verifier::external_body]
pub(crate) fn ctrl_store_clear_events(s: &mut Store<u32, CtrlChg, ModelChangeMetadata>)
    ensures
        ctrl_entries(*final(s)) == ctrl_entries(*old(s)),
        ctrl_event_log(*final(s)) == log_cleared(ctrl_event_log(*old(s))),
{
    s.clear_events()
}

/// The notes a bag store holds: under each tick, the notes (behind their
/// handles) in the order they were added.
pub uninterp spec fn note_bag(s: BagStore<u32, Rc<Note>, ModelChangeMetadata>) -> Map<u32, Seq<Note>>;

/// Records of notes behind handles as records of notes.
pub open spec fn unshared(recs: Seq<(u32, Rc<Note>)>) -> Seq<(u32, Note)> {
    recs.map_values(|p: (u32, Rc<Note>)| (p.0, *p.1))
}

/// Changes of notes behind handles as changes of notes.
pub open spec fn unshared_changes(ft: Seq<((u32, Rc<Note>), (u32, Rc<Note>))>) -> Seq<((u32, Note), (u32, Note))> {
    ft.map_values(|p: ((u32, Rc<Note>), (u32, Rc<Note>))| ((p.0.0, *p.0.1), (p.1.0, *p.1.1)))
}

/// Adding a note under a tick: after the notes already there.
pub open spec fn bag_add(m: Map<u32, Seq<Note>>, k: u32, n: Note) -> Map<u32, Seq<Note>> {
    m.insert(k, if m.contains_key(k) { m[k].push(n) } else { seq![n] })
}

/// Where a note first is in a sequence.
pub open spec fn first_index(s: Seq<Note>, n: Note) -> int {
    choose|i: int| 0 <= i < s.len() && s[i] == n && forall|j: int| 0 <= j < i ==> s[j] != n
}

/// Removing a note (the first equal one) under a tick: the tick goes when no
/// note stays under it; with the note removed, if there was one.
pub open spec fn bag_remove(m: Map<u32, Seq<Note>>, k: u32, n: Note) -> (Map<u32, Seq<Note>>, Option<Note>) {
    if m.contains_key(k) && m[k].contains(n) {
        let i = first_index(m[k], n);
        let rest = m[k].remove(i);
        (if rest.len() == 0 { m.remove(k) } else { m.insert(k, rest) }, Some(m[k][i]))
    } else {
        (m, None)
    }
}

/// Notes added one after the other.
pub open spec fn bag_bulk_add(m: Map<u32, Seq<Note>>, recs: Seq<(u32, Note)>) -> Map<u32, Seq<Note>>
    decreases recs.len(),
{
    if recs.len() == 0 {
        m
    } else {
        bag_add(bag_bulk_add(m, recs.drop_last()), recs.last().0, recs.last().1)
    }
}

/// Notes removed one after the other, with those removed, in order.
pub open spec fn bag_bulk_remove(m: Map<u32, Seq<Note>>, recs: Seq<(u32, Note)>) -> (Map<u32, Seq<Note>>, Seq<(u32, Note)>)
    decreases recs.len(),
{
    if recs.len() == 0 {
        (m, Seq::empty())
    } else {
        let (m1, removed) = bag_bulk_remove(m, recs.drop_last());
        let (m2, r) = bag_remove(m1, recs.last().0, recs.last().1);
        (m2, match r {
            Some(x) => removed.push((recs.last().0, x)),
            None => removed,
        })
    }
}

/// The first step of a change of notes: each `from` note is removed one after
/// the other; the new entries of those that were there are kept, in order.
pub open spec fn bag_change_taken(
    m: Map<u32, Seq<Note>>,
    ft: Seq<((u32, Note), (u32, Note))>,
) -> (Map<u32, Seq<Note>>, Seq<(u32, Note)>)
    decreases ft.len(),
{
    if ft.len() == 0 {
        (m, Seq::empty())
    } else {
        let (m1, taken) = bag_change_taken(m, ft.drop_last());
        let (m2, r) = bag_remove(m1, ft.last().0.0, ft.last().0.1);
        if r is Some { (m2, taken.push(ft.last().1)) } else { (m1, taken) }
    }
}

/// The pairs a change of notes logs: for each `from` note that was there
/// when its turn came, the note removed with its new entry, in order.
pub open spec fn bag_change_pairs(
    m: Map<u32, Seq<Note>>,
    ft: Seq<((u32, Note), (u32, Note))>,
) -> Seq<((u32, Note), (u32, Note))>
    decreases ft.len(),
{
    if ft.len() == 0 {
        Seq::empty()
    } else {
        let m1 = bag_change_taken(m, ft.drop_last()).0;
        let k = ft.last().0.0;
        bag_change_pairs(m, ft.drop_last()) + match bag_remove(m1, k, ft.last().0.1).1 {
            Some(x) => seq![((k, x), ft.last().1)],
            None => Seq::empty(),
        }
    }
}

/// The lowest tick of a bag under which there are notes.
pub open spec fn first_tick(m: Map<u32, Seq<Note>>) -> u32 {
    choose|k: u32| m.contains_key(k) && forall|j: u32| #[trigger] m.contains_key(j) ==> k <= j
}

/// The notes of a bag by increasing tick, those under one tick in their order.
pub open spec fn bag_listing(m: Map<u32, Seq<Note>>) -> Seq<(u32, Note)>
    decreases m.dom().len(),
    when m.dom().finite()
{
    if m.dom().len() > 0 && m.contains_key(first_tick(m)) {
        let k = first_tick(m);
        m[k].map_values(|n: Note| (k, n)) + bag_listing(m.remove(k))
    } else {
        Seq::empty()
    }
}

/// The part of a bag under ticks from `start` on.
pub open spec fn bag_from(m: Map<u32, Seq<Note>>, start: u32) -> Map<u32, Seq<Note>> {
    m.restrict(Set::new(|k: u32| k >= start))
}

/// One of the records holds the note under the tick.
pub open spec fn has_record(recs: Seq<(u32, Rc<Note>)>, k: u32, n: Note) -> bool {
    exists|i: int| 0 <= i < recs.len() && recs[i].0 == k && *recs[i].1 == n
}

/// `BagStore::new`: a bag of notes with nothing in it (logging events when
/// `hold_events`).
#[verifier::external_body]
pub(crate) fn note_bag_new(hold_events: bool) -> (r: BagStore<u32, Rc<Note>, ModelChangeMetadata>)
    ensures
        note_bag(r).dom().is_empty(),
        note_event_log(r) == new_log::<BagLogEvent>(hold_events),
{
    BagStore::new(hold_events)
}

/// `BagStore::add`: adds the note under the tick, and logs it as added where
/// the store logs events.
#[verifier::external_body]
pub(crate) fn note_bag_add(s: &mut BagStore<u32, Rc<Note>, ModelChangeMetadata>, key: u32, note: Rc<Note>, metadata: ModelChangeMetadata)
    ensures
        note_bag(*final(s)) == bag_add(note_bag(*old(s)), key, *note),
        note_event_log(*final(s)) == fired(note_event_log(*old(s)), (BagLogEvent::Added { added: *note, metadata })),
{
    s.add(key, note, metadata)
}

/// `BagStore::remove`: removes the first note under the tick that equals the
/// given one (`Rc` compares the notes), giving it back if there was one;
/// where it removed one and the store logs events, it logs the given note as
/// removed.
#[verifier::external_body]
pub(crate) fn note_bag_remove(s: &mut BagStore<u32, Rc<Note>, ModelChangeMetadata>, key: u32, note: &Rc<Note>) -> (r: Option<Rc<Note>>)
    ensures
        bag_remove(note_bag(*old(s)), key, **note) == (note_bag(*final(s)), match r {
            Some(x) => Some(*x),
            None => None,
        }),
        note_event_log(*final(s)) == match r {
            Some(_) => fired(note_event_log(*old(s)), BagLogEvent::Removed(**note)),
            None => note_event_log(*old(s)),
        },
{
    s.remove(&key, note)
}

/// `BagStore::bulk_add`: adds the notes one after the other, and logs them
/// as added in bulk where the store logs events.
#[verifier::external_body]
pub(crate) fn note_bag_bulk_add(s: &mut BagStore<u32, Rc<Note>, ModelChangeMetadata>, recs: Vec<(u32, Rc<Note>)>, metadata: ModelChangeMetadata)
    ensures
        note_bag(*final(s)) == bag_bulk_add(note_bag(*old(s)), unshared(recs@)),
        note_event_log(*final(s)) == fired(note_event_log(*old(s)), (BagLogEvent::BulkAddedRemoved {
            added: unshared(recs@),
            removed: Seq::empty(),
            metadata,
        })),
{
    s.bulk_add(recs, metadata)
}

/// `BagStore::bulk_remove`: removes the notes one after the other, giving back
/// those removed, in order; where it logs events, it logs those as removed in
/// bulk.
#[verifier::external_body]
pub(crate) fn note_bag_bulk_remove(s: &mut BagStore<u32, Rc<Note>, ModelChangeMetadata>, recs: &Vec<(u32, Rc<Note>)>, metadata: ModelChangeMetadata) -> (r: Vec<(u32, Rc<Note>)>)
    ensures
        (note_bag(*final(s)), unshared(r@)) == bag_bulk_remove(note_bag(*old(s)), unshared(recs@)),
        note_event_log(*final(s)) == fired(note_event_log(*old(s)), (BagLogEvent::BulkAddedRemoved {
            added: Seq::empty(),
            removed: unshared(r@),
            metadata,
        })),
{
    s.bulk_remove(recs, metadata)
}

/// `BagStore::change`: removes each `from` note, then adds the new entry of
/// each that was there; where it logs events, it logs each note removed with
/// its new entry.
#[verifier::external_body]
pub(crate) fn note_bag_change(s: &mut BagStore<u32, Rc<Note>, ModelChangeMetadata>, from_to: &Vec<((u32, Rc<Note>), (u32, Rc<Note>))>, metadata: ModelChangeMetadata)
    ensures
        note_bag(*final(s)) == bag_bulk_add(bag_change_taken(note_bag(*old(s)), unshared_changes(from_to@)).0,
            bag_change_taken(note_bag(*old(s)), unshared_changes(from_to@)).1),
        note_event_log(*final(s)) == fired(note_event_log(*old(s)), (BagLogEvent::Changed {
            from_to: bag_change_pairs(note_bag(*old(s)), unshared_changes(from_to@)),
            removed: Seq::empty(),
            metadata,
        })),
{
    s.change(from_to, metadata)
}

/// `BagStore::is_empty`: whether no note is held. The source counts the notes
/// held; where no tick holds an empty `Vec` of notes (the bag's own `add`,
/// `remove`, `bulk_add`, `bulk_remove` and `change` leave none), no note is
/// held exactly when no tick is.
#[verifier::external_body]
pub(crate) fn note_bag_is_empty(s: &BagStore<u32, Rc<Note>, ModelChangeMetadata>) -> (r: bool)
    requires
        forall|k: u32| #[trigger] note_bag(*s).contains_key(k) ==> note_bag(*s)[k].len() > 0,
    ensures
        r == note_bag(*s).dom().is_empty(),
{
    s.is_empty()
}

/// `BagStore::peek_last`: the highest tick that has notes, if any.
#[verifier::external_body]
pub(crate) fn note_bag_last_tick(s: &BagStore<u32, Rc<Note>, ModelChangeMetadata>) -> (r: Option<u32>)
    ensures
        match r {
            Some(k) => note_bag(*s).contains_key(k) && forall|j: u32| #[trigger] note_bag(*s).contains_key(j) ==> j <= k,
            None => note_bag(*s).dom().is_empty(),
        },
{
    s.peek_last().map(|(k, _)| *k)
}

/// `BagStore::range` from a tick on: the notes under ticks from `start`, each
/// with its tick, by increasing tick (notes under one tick in their order):
/// the source walks the `BTreeMap` of ticks in order and, under each, the
/// `Vec` of notes.
#[verifier::external_body]
pub(crate) fn note_bag_from(s: &BagStore<u32, Rc<Note>, ModelChangeMetadata>, start: u32) -> (r: Vec<(u32, Rc<Note>)>)
    ensures
        forall|i: int| 0 <= i < r@.len() ==> (#[trigger] r@[i]).0 >= start && note_bag(*s).contains_key(r@[i].0)
            && note_bag(*s)[r@[i].0].contains(*r@[i].1),
        forall|k: u32, j: int| #![trigger note_bag(*s)[k][j]] k >= start && note_bag(*s).contains_key(k) && 0 <= j < note_bag(*s)[k].len()
            ==> has_record(r@, k, note_bag(*s)[k][j]),
        unshared(r@) == bag_listing(bag_from(note_bag(*s), start)),
{
    s.range(start..).map(|(k, n)| (*k, n.clone())).collect()
}

/// The events a bag store of notes holds logged, with their notes as plain
/// values; none where it holds no log.
pub uninterp spec fn note_event_log(s: BagStore<u32, Rc<Note>, ModelChangeMetadata>) -> Option<Seq<BagLogEvent>>;

/// `BagStore::clear_events`: forgets the events logged (the source clears
/// the `Vec` of events where the store holds one).
#[verifier::external_body]
pub(crate) fn note_bag_clear_events(s: &mut BagStore<u32, Rc<Note>, ModelChangeMetadata>)
    ensures
        note_bag(*final(s)) == note_bag(*old(s)),
        note_event_log(*final(s)) == log_cleared(note_event_log(*old(s))),
{
    s.clear_events()
}

} // verus!
