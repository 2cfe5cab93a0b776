use vstd::prelude::*;
use std::collections::VecDeque;
use crate::models::Models;
use crate::project::ModelChangeMetadata;
use vstd::std_specs::iter::IteratorSpec;

verus! {

/// A change that can be undone: the items added and removed.
#[derive(Clone, PartialEq, Debug)]
pub enum Undo {
    Changed { added: Models, removed: Models, metadata: ModelChangeMetadata },
}

/// Changes to undo, newest first, up to a capacity; those undone stay for
/// redoing until a new change comes.
#[derive(Debug)]
pub struct UndoStore {
    store: VecDeque<Undo>,
    capacity: usize,
    index: usize,
    is_freezed: bool,
}

/// What an undo store holds: the changes (newest first), how many may be
/// kept, how many of them are undone, and whether new changes are ignored.
pub struct UndoView {
    pub items: Seq<Undo>,
    pub capacity: nat,
    pub index: nat,
    pub frozen: bool,
}

/// Adding a change: ignored when frozen; else the undone changes are
/// dropped, the oldest is dropped when the store is full, and the change
/// goes first.
pub open spec fn add_spec(v: UndoView, undo: Undo) -> UndoView {
    if v.frozen {
        v
    } else {
        let kept = v.items.skip(v.index as int);
        let kept = if v.capacity <= kept.len() && kept.len() > 0 { kept.drop_last() } else { kept };
        UndoView { items: seq![undo] + kept, index: 0, ..v }
    }
}

/// Undoing: the next change not undone yet, if any.
pub open spec fn undo_spec(v: UndoView) -> (UndoView, Option<Undo>) {
    if v.index < v.items.len() {
        (UndoView { index: v.index + 1, ..v }, Some(v.items[v.index as int]))
    } else {
        (v, None)
    }
}

/// Redoing: the last change undone, if any.
pub open spec fn redo_spec(v: UndoView) -> (UndoView, Option<Undo>) {
    if v.index != 0 {
        (UndoView { index: (v.index - 1) as nat, ..v }, Some(v.items[v.index - 1]))
    } else {
        (v, None)
    }
}

impl View for UndoStore {
    type V = UndoView;

    closed spec fn view(&self) -> UndoView {
        UndoView { items: self.store@, capacity: self.capacity as nat, index: self.index as nat, frozen: self.is_freezed }
    }
}

impl UndoStore {
    /// No more changes are undone than there are.
    pub closed spec fn wf(&self) -> bool {
        self.index <= self.store@.len()
    }

    /// An empty store keeping up to `capacity` changes.
    pub fn new(capacity: usize) -> (r: UndoStore)
        ensures
            r.wf(),
            r@ == (UndoView { items: Seq::empty(), capacity: capacity as nat, index: 0, frozen: false }),
    {
        UndoStore { store: VecDeque::new(), capacity, index: 0, is_freezed: false }
    }

    /// The changes, newest first.
    pub fn iter(&self) -> (r: std::collections::vec_deque::Iter<'_, Undo>)
        ensures
            r.remaining() == self@.items.as_ref(),
    {
        proof {
            broadcast use vstd::std_specs::vecdeque::group_vec_dequeue_axioms;
        }
        self.store.iter()
    }

    /// Records a change (see `add_spec`).
    pub fn add(&mut self, undo: Undo)
        requires
            old(self).wf(),
        ensures
            final(self).wf(),
            final(self)@ == add_spec(old(self)@, undo),
    {
        if self.is_freezed {
            return;
        }
        if self.index != 0 {
            let rest = self.store.split_off(self.index);
            self.store = rest;
            self.index = 0;
        }
        let ghost kept = self.store@;
        if self.capacity <= self.store.len() {
            self.store.pop_back();
        }
        self.store.push_front(undo);
        proof {
            assert(kept =~= old(self)@.items.skip(old(self)@.index as int));
            if self.capacity <= kept.len() && kept.len() > 0 {
                assert(kept.subrange(0, kept.len() - 1) =~= kept.drop_last());
            }
        }
    }

    /// The next change to undo, if any (see `undo_spec`).
    pub fn undo(&mut self) -> (r: Option<&Undo>)
        requires
            old(self).wf(),
        ensures
            final(self).wf(),
            final(self)@ == undo_spec(old(self)@).0,
            r == match undo_spec(old(self)@).1 {
                Some(u) => Some(&u),
                None => None::<&Undo>,
            },
    {
        if self.index < self.store.len() {
            let i = self.index;
            self.index = self.index + 1;
            Some(&self.store[i])
        } else {
            None
        }
    }

    /// The last change undone, to redo, if any (see `redo_spec`).
    pub fn redo(&mut self) -> (r: Option<&Undo>)
        requires
            old(self).wf(),
        ensures
            final(self).wf(),
            final(self)@ == redo_spec(old(self)@).0,
            r == match redo_spec(old(self)@).1 {
                Some(u) => Some(&u),
                None => None::<&Undo>,
            },
    {
        if self.index != 0 {
            self.index = self.index - 1;
            Some(&self.store[self.index])
        } else {
            None
        }
    }

    /// The number of changes kept.
    pub fn len(&self) -> (r: usize)
        ensures
            r == self@.items.len(),
    {
        self.store.len()
    }

    pub fn is_empty(&self) -> (r: bool)
        ensures
            r == (self@.items.len() == 0),
    {
        self.store.len() == 0
    }

    /// Whether there is a change to undo.
    pub fn can_undo(&self) -> (r: bool)
        ensures
            r == (self@.index < self@.items.len()),
    {
        self.index < self.store.len()
    }

    /// Whether there is a change to redo.
    pub fn can_redo(&self) -> (r: bool)
        ensures
            r == (self@.index != 0),
    {
        self.index != 0
    }

    /// Makes the store ignore new changes, or take them again.
    pub fn freeze(&mut self, is_freezed: bool)
        requires
            old(self).wf(),
        ensures
            final(self).wf(),
            final(self)@ == (UndoView { frozen: is_freezed, ..old(self)@ }),
    {
        self.is_freezed = is_freezed;
    }
}

impl Default for UndoStore {
    /// A store keeping up to 100 changes.
    fn default() -> (r: UndoStore)
        ensures
            r.wf(),
            r@ == (UndoView { items: Seq::empty(), capacity: 100, index: 0, frozen: false }),
    {
        UndoStore::new(100)
    }
}

/// A change just recorded is the next to undo.
pub proof fn law_undo_gives_last_added(v: UndoView, undo: Undo)
    requires
        !v.frozen,
    ensures
        undo_spec(add_spec(v, undo)).1 == Some(undo),
{
}

/// Redoing right after undoing gives back the change undone, and the store
/// is as before.
pub proof fn law_redo_after_undo(v: UndoView)
    requires
        undo_spec(v).1 is Some,
    ensures
        redo_spec(undo_spec(v).0) == (v, undo_spec(v).1),
{
    assert(redo_spec(undo_spec(v).0).0 == v);
}

/// A store never holds more changes than its capacity (or one, for a
/// capacity of 0).
pub proof fn law_capacity_kept(v: UndoView, undo: Undo)
    requires
        v.index <= v.items.len(),
        v.items.len() <= if v.capacity == 0 { 1 } else { v.capacity },
    ensures
        add_spec(v, undo).items.len() <= if v.capacity == 0 { 1 } else { v.capacity },
{
}

/// After a change is recorded there is nothing to redo.
pub proof fn law_add_clears_redo(v: UndoView, undo: Undo)
    requires
        !v.frozen,
    ensures
        redo_spec(add_spec(v, undo)).1 is None,
{
}

} // verus!
