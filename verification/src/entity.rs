//! Entity identifiers and the store that hands them out.
//!
//! An [`Entity`] names one incarnation of a slot. A slot that is reused after
//! its entity was deleted gets a higher generation, so a stale identifier is
//! told apart from the entity that now lives in the slot.

use vstd::prelude::*;

verus! {

/// An opaque identifier: a slot and the incarnation of that slot.
#[derive(Clone, Copy, Debug, PartialEq, Eq, Structural, Hash)]
pub struct Entity {
    pub id: usize,
    pub generation: u64,
}

/// The entity store: one generation counter and one liveness flag per slot.
pub struct Entities {
    pub generations: Vec<u64>,
    pub alive: Vec<bool>,
}

impl Entities {
    /// Both per-slot vectors cover the same slots.
    pub open spec fn wf(&self) -> bool {
        self.generations@.len() == self.alive@.len()
    }

    /// Number of slots ever handed out.
    pub open spec fn count(&self) -> int {
        self.alive@.len() as int
    }

    /// Slot `i` currently holds a live entity.
    pub open spec fn slot_alive(&self, i: int) -> bool {
        0 <= i < self.alive@.len() && self.alive@[i]
    }

    /// `e` is the live entity of its slot.
    pub open spec fn is_alive(&self, e: Entity) -> bool {
        self.slot_alive(e.id as int) && self.generations@[e.id as int] == e.generation
    }

    /// The identifier of the current incarnation of slot `i`.
    pub open spec fn entity_at(&self, i: int) -> Entity
        recommends
            0 <= i < self.generations@.len(),
    {
        Entity { id: i as usize, generation: self.generations@[i] }
    }

    /// No slot holds a live entity.
    pub open spec fn none_alive(&self) -> bool {
        forall|i: int| !self.slot_alive(i)
    }

    pub fn new() -> (r: Entities)
        ensures
            r.wf(),
            r.count() == 0,
            r.none_alive(),
    {
        Entities { generations: Vec::new(), alive: Vec::new() }
    }

    /// Whether the store is well formed.
    pub fn is_well_formed(&self) -> (r: bool)
        ensures
            r == self.wf(),
    {
        self.generations.len() == self.alive.len()
    }

    pub fn len(&self) -> (n: usize)
        requires
            self.wf(),
        ensures
            n == self.count(),
    {
        self.alive.len()
    }

    /// Whether slot `i` holds a live entity; `false` for a slot never handed out.
    pub fn slot_is_alive(&self, i: usize) -> (r: bool)
        requires
            self.wf(),
        ensures
            r == self.slot_alive(i as int),
    {
        i < self.alive.len() && self.alive[i]
    }

    pub fn is_entity_alive(&self, e: Entity) -> (r: bool)
        requires
            self.wf(),
        ensures
            r == self.is_alive(e),
    {
        e.id < self.alive.len() && self.alive[e.id] && self.generations[e.id] == e.generation
    }

    /// The identifier of the current incarnation of slot `i`.
    pub fn entity(&self, i: usize) -> (e: Entity)
        requires
            self.wf(),
            i < self.count(),
        ensures
            e == self.entity_at(i as int),
            self.slot_alive(i as int) ==> self.is_alive(e),
    {
        Entity { id: i, generation: self.generations[i] }
    }

    /// Slot `i` can be reused: it is dead and its generation can still be
    /// raised.
    pub open spec fn reusable(&self, i: int) -> bool {
        0 <= i < self.alive@.len() && !self.alive@[i] && self.generations@[i] < u64::MAX
    }

    /// The slot that the next entity gets: the lowest slot that can be
    /// reused, or a new slot behind the last where none can.
    #[verifier::opaque]
    pub open spec fn next_slot(&self) -> int {
        if exists|i: int| self.reusable(i) {
            choose|i: int| self.reusable(i) && forall|j: int| 0 <= j < i ==> !self.reusable(j)
        } else {
            self.count()
        }
    }

    /// `after` is `self` with the entity `e` created: `e` lives in the slot
    /// that was next, under the generation after the one the slot had, or
    /// under generation 1 in a new slot; every other slot is as it was.
    pub open spec fn is_creation(&self, after: &Entities, e: Entity) -> bool {
        &&& e.id == self.next_slot()
        &&& e.generation == (if e.id < self.count() {
            self.generations@[e.id as int] + 1
        } else {
            1
        })
        &&& after.generations@ == (if e.id < self.count() {
            self.generations@.update(e.id as int, e.generation)
        } else {
            self.generations@.push(e.generation)
        })
        &&& after.alive@ == (if e.id < self.count() {
            self.alive@.update(e.id as int, true)
        } else {
            self.alive@.push(true)
        })
    }

    /// The lowest slot that can be reused, if any.
    fn reusable_slot(&self) -> (r: Option<usize>)
        requires
            self.wf(),
        ensures
            match r {
                Some(i) => self.reusable(i as int) && i == self.next_slot(),
                None => self.next_slot() == self.count() && forall|i: int| !self.reusable(i),
            },
    {
        let mut i: usize = 0;
        while i < self.alive.len()
            invariant
                self.wf(),
                i <= self.alive@.len(),
                forall|j: int| 0 <= j < i ==> !self.reusable(j),
            decreases self.alive@.len() - i,
        {
            if !self.alive[i] && self.generations[i] < u64::MAX {
                proof {
                    reveal(Entities::next_slot);
                    assert(self.reusable(i as int));
                    let least = choose|k: int|
                        self.reusable(k) && forall|j: int| 0 <= j < k ==> !self.reusable(j);
                    assert(self.reusable(i as int) && forall|j: int|
                        0 <= j < i ==> !self.reusable(j));
                    if least < i {
                        assert(!self.reusable(least));
                    }
                    if i < least {
                        assert(!self.reusable(i as int));
                    }
                }
                return Some(i);
            }
            i += 1;
        }
        proof {
            reveal(Entities::next_slot);
        }
        None
    }

    /// Allocates an entity. The lowest dead slot is reused under a higher
    /// generation; where there is none a new slot is opened with
    /// generation 1.
    pub fn create(&mut self) -> (e: Entity)
        requires
            old(self).wf(),
        ensures
            final(self).wf(),
            old(self).is_creation(final(self), e),
            final(self).is_alive(e),
            !old(self).slot_alive(e.id as int),
            old(self).count() <= final(self).count() <= old(self).count() + 1,
            forall|i: int| i != e.id ==> final(self).slot_alive(i) == old(self).slot_alive(i),
            forall|i: int|
                0 <= i < old(self).count() && i != e.id ==> final(self).generations@[i]
                    == old(self).generations@[i],
            e.id < old(self).count() ==> e.generation > old(self).generations@[e.id as int],
            forall|x: Entity| x.id != e.id ==> final(self).is_alive(x) == old(self).is_alive(x),
    {
        match self.reusable_slot() {
            Some(i) => {
                let g: u64 = self.generations[i] + 1;
                self.generations[i] = g;
                self.alive[i] = true;
                Entity { id: i, generation: g }
            },
            None => {
                let i: usize = self.alive.len();
                self.generations.push(1);
                self.alive.push(true);
                Entity { id: i, generation: 1 }
            },
        }
    }

    /// Deletes `e` if it is alive, and says whether it was.
    pub fn kill(&mut self, e: Entity) -> (r: bool)
        requires
            old(self).wf(),
        ensures
            final(self).wf(),
            r == old(self).is_alive(e),
            final(self).generations@ == old(self).generations@,
            final(self).count() == old(self).count(),
            r ==> !final(self).slot_alive(e.id as int),
            !r ==> final(self).alive@ == old(self).alive@,
            forall|i: int| i != e.id ==> final(self).slot_alive(i) == old(self).slot_alive(i),
            forall|x: Entity| final(self).is_alive(x) == (old(self).is_alive(x) && !(r && x.id
                == e.id)),
    {
        if e.id < self.alive.len() && self.alive[e.id] && self.generations[e.id] == e.generation {
            self.alive[e.id] = false;
            true
        } else {
            false
        }
    }
}

/// The slot that the next entity gets is the lowest that can be reused;
/// where no slot can be reused it is a new one.
pub proof fn lemma_next_slot_is_lowest(entities: &Entities)
    ensures
        0 <= entities.next_slot() <= entities.count(),
        entities.next_slot() < entities.count() ==> entities.reusable(entities.next_slot()),
        forall|j: int| 0 <= j < entities.next_slot() ==> !entities.reusable(j),
        entities.next_slot() == entities.count() ==> forall|j: int| !entities.reusable(j),
{
    reveal(Entities::next_slot);
    if exists|i: int| entities.reusable(i) {
        let some = choose|i: int| entities.reusable(i);
        lemma_lowest_exists(entities, some);
    }
}

/// Below a slot that can be reused there is a lowest one that can.
proof fn lemma_lowest_exists(entities: &Entities, i: int)
    requires
        entities.reusable(i),
    ensures
        exists|k: int| entities.reusable(k) && forall|j: int| 0 <= j < k ==> !entities.reusable(j),
    decreases i,
{
    if exists|j: int| 0 <= j < i && entities.reusable(j) {
        let j = choose|j: int| 0 <= j < i && entities.reusable(j);
        lemma_lowest_exists(entities, j);
    } else {
        assert(entities.reusable(i) && forall|j: int| 0 <= j < i ==> !entities.reusable(j));
    }
}

/// A slot that is reused gets a generation it never had before: an
/// identifier that was alive in a slot before it was reused differs from
/// the identifier that the slot holds afterwards.
pub proof fn lemma_reused_slot_is_told_apart(
    before: &Entities,
    after: &Entities,
    earlier: Entity,
    fresh: Entity,
)
    requires
        before.wf(),
        earlier.id < before.count(),
        earlier.generation <= before.generations@[earlier.id as int],
        after.is_alive(fresh),
        fresh.id < before.count() ==> fresh.generation > before.generations@[fresh.id as int],
    ensures
        fresh != earlier,
{
}

} // verus!
