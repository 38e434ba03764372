//! Sparse per-type component storage, indexed by entity slot.

use vstd::prelude::*;
use crate::entity::{Entities, Entity};

verus! {

/// `upper` where there is one, else `under`.
pub open spec fn laid_over<T>(upper: Option<T>, under: Option<T>) -> Option<T> {
    if upper is Some {
        upper
    } else {
        under
    }
}

/// A sparse mapping from entity slots to component values.
///
/// Slots beyond the end of the vector are empty.
pub struct Storage<T> {
    pub slots: Vec<Option<T>>,
}

impl<T> Storage<T> {
    /// The component in slot `i`, if any.
    pub open spec fn at(&self, i: int) -> Option<T> {
        if 0 <= i < self.slots@.len() {
            self.slots@[i]
        } else {
            None
        }
    }

    /// Slot `i` holds a component.
    pub open spec fn has(&self, i: int) -> bool {
        self.at(i) is Some
    }

    /// No slot holds a component.
    pub open spec fn is_clear(&self) -> bool {
        forall|i: int| #[trigger] self.at(i) is None
    }

    /// Components sit on live entities only.
    pub open spec fn within(&self, entities: &Entities) -> bool {
        forall|i: int| #[trigger] self.at(i) is Some ==> entities.slot_alive(i)
    }

    /// The component of entity `e`: that of its slot while `e` is alive.
    pub open spec fn of(&self, entities: &Entities, e: Entity) -> Option<T> {
        if entities.is_alive(e) {
            self.at(e.id as int)
        } else {
            None
        }
    }

    pub fn new() -> (r: Self)
        ensures
            r.is_clear(),
            r.slots@.len() == 0,
    {
        Storage { slots: Vec::new() }
    }

    /// Number of slots the storage reaches; every slot from here on is empty.
    pub fn len(&self) -> (n: usize)
        ensures
            n == self.slots@.len(),
            forall|i: int| i >= n ==> #[trigger] self.at(i) is None,
    {
        self.slots.len()
    }

    /// The component in slot `i`.
    pub fn slot(&self, i: usize) -> (r: Option<&T>)
        ensures
            match r {
                Some(v) => self.at(i as int) == Some(*v),
                None => self.at(i as int) is None,
            },
    {
        if i < self.slots.len() {
            self.slots[i].as_ref()
        } else {
            None
        }
    }

    pub fn has_slot(&self, i: usize) -> (r: bool)
        ensures
            r == self.has(i as int),
    {
        i < self.slots.len() && self.slots[i].is_some()
    }

    /// Puts `v` into slot `i`, growing the storage when needed.
    pub fn set(&mut self, i: usize, v: T)
        ensures
            final(self).at(i as int) == Some(v),
            forall|j: int|
                #![trigger final(self).at(j)]
                #![trigger old(self).at(j)]
                j != i ==> final(self).at(j) == old(self).at(j),
            final(self).slots@.len() >= old(self).slots@.len(),
    {
        while self.slots.len() <= i
            invariant
                self.slots@.len() >= old(self).slots@.len(),
                forall|j: int|
                    #![trigger self.at(j)]
                    #![trigger old(self).at(j)]
                    self.at(j) == old(self).at(j),
            decreases i + 1 - self.slots@.len(),
        {
            self.slots.push(None);
        }
        self.slots[i] = Some(v);
    }

    /// Puts `c` into slot `i` if there is one; `None` leaves the slot as it
    /// is.
    pub fn put(&mut self, i: usize, c: Option<T>)
        ensures
            final(self).at(i as int) == laid_over(c, old(self).at(i as int)),
            forall|j: int|
                #![trigger final(self).at(j)]
                #![trigger old(self).at(j)]
                j != i ==> final(self).at(j) == old(self).at(j),
    {
        if let Some(v) = c {
            self.set(i, v);
        }
    }

    /// Empties slot `i` and returns what it held.
    pub fn unset(&mut self, i: usize) -> (r: Option<T>)
        ensures
            r == old(self).at(i as int),
            final(self).at(i as int) is None,
            forall|j: int|
                #![trigger final(self).at(j)]
                #![trigger old(self).at(j)]
                j != i ==> final(self).at(j) == old(self).at(j),
            final(self).slots@.len() == old(self).slots@.len(),
    {
        if i < self.slots.len() {
            let mut taken: Option<T> = None;
            core::mem::swap(&mut self.slots[i], &mut taken);
            taken
        } else {
            None
        }
    }

    /// Removes every component.
    pub fn clear(&mut self)
        ensures
            final(self).is_clear(),
            final(self).slots@.len() == 0,
    {
        self.slots.clear();
    }

    /// Whether components sit on live entities only.
    pub fn is_within(&self, entities: &Entities) -> (r: bool)
        requires
            entities.wf(),
        ensures
            r == self.within(entities),
    {
        let mut i: usize = 0;
        while i < self.slots.len()
            invariant
                entities.wf(),
                i <= self.slots@.len(),
                forall|j: int| 0 <= j < i && #[trigger] self.at(j) is Some
                    ==> entities.slot_alive(j),
            decreases self.slots@.len() - i,
        {
            if self.slots[i].is_some() && !entities.slot_is_alive(i) {
                assert(self.at(i as int) is Some);
                return false;
            }
            i += 1;
        }
        true
    }

    /// The component of `e`, if `e` is alive and has one.
    pub fn get(&self, entities: &Entities, e: Entity) -> (r: Option<&T>)
        requires
            entities.wf(),
        ensures
            match r {
                Some(v) => self.of(entities, e) == Some(*v),
                None => self.of(entities, e) is None,
            },
    {
        if entities.is_entity_alive(e) {
            self.slot(e.id)
        } else {
            None
        }
    }

    pub fn contains(&self, entities: &Entities, e: Entity) -> (r: bool)
        requires
            entities.wf(),
        ensures
            r == (self.of(entities, e) is Some),
    {
        entities.is_entity_alive(e) && self.has_slot(e.id)
    }

    /// Attaches `v` to `e`, replacing what `e` had. A dead `e` gets nothing:
    /// the storage is unchanged and the result is `false`.
    pub fn insert(&mut self, entities: &Entities, e: Entity, v: T) -> (r: bool)
        requires
            entities.wf(),
            old(self).within(entities),
        ensures
            r == entities.is_alive(e),
            final(self).within(entities),
            r ==> final(self).at(e.id as int) == Some(v),
            forall|j: int|
                #![trigger final(self).at(j)]
                #![trigger old(self).at(j)]
                !(r && j == e.id) ==> final(self).at(j) == old(self).at(j),
    {
        if entities.is_entity_alive(e) {
            self.set(e.id, v);
            true
        } else {
            false
        }
    }

    /// Detaches the component of `e` and returns it.
    pub fn remove(&mut self, entities: &Entities, e: Entity) -> (r: Option<T>)
        requires
            entities.wf(),
            old(self).within(entities),
        ensures
            r == old(self).of(entities, e),
            final(self).within(entities),
            entities.is_alive(e) ==> final(self).at(e.id as int) is None,
            forall|j: int|
                #![trigger final(self).at(j)]
                #![trigger old(self).at(j)]
                !(entities.is_alive(e) && j == e.id) ==> final(self).at(j) == old(self).at(j),
    {
        if entities.is_entity_alive(e) {
            self.unset(e.id)
        } else {
            None
        }
    }
}

impl<T: Copy> Storage<T> {
    /// What slot `i` holds.
    pub fn copied(&self, i: usize) -> (r: Option<T>)
        ensures
            r == self.at(i as int),
    {
        if i < self.slots.len() {
            self.slots[i]
        } else {
            None
        }
    }
}

} // verus!
