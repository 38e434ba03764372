//! Weighted choice among what can be spawned.

use vstd::prelude::*;
use rltk::RandomNumberGenerator;
use crate::rng::range;

verus! {

/// What a room can be populated with.
#[derive(PartialEq, Eq, Structural, Clone, Copy, Debug)]
pub enum SpawnKind {
    Goblin,
    Orc,
    HealthPotion,
    FireballScroll,
    ConfusionScroll,
    MagicMissileScroll,
    Dagger,
    Shield,
    TowerShield,
    Longsword,
}

#[derive(PartialEq, Eq, Structural, Clone, Copy, Debug)]
pub struct RandomEntry {
    pub kind: SpawnKind,
    pub weight: i32,
}

/// A list of kinds, each with a positive weight.
pub struct RandomTable {
    pub entries: Vec<RandomEntry>,
    pub total_weight: i32,
}

/// The sum of the weights.
pub open spec fn weight_sum(entries: Seq<RandomEntry>) -> int
    decreases entries.len(),
{
    if entries.len() == 0 {
        0
    } else {
        weight_sum(entries.drop_last()) + entries.last().weight
    }
}

/// The kind that the roll `roll` picks: the entries split the rolls from 1
/// to the sum of the weights among them, in order, each taking as many
/// rolls as its weight. A roll outside that range picks nothing.
pub open spec fn picked(entries: Seq<RandomEntry>, roll: int) -> Option<SpawnKind>
    decreases entries.len(),
{
    if entries.len() == 0 || roll < 1 {
        None
    } else if roll <= weight_sum(entries.drop_last()) {
        picked(entries.drop_last(), roll)
    } else if roll <= weight_sum(entries) {
        Some(entries.last().kind)
    } else {
        None
    }
}

impl RandomTable {
    /// Every weight is positive and the total is their sum.
    pub open spec fn wf(&self) -> bool {
        &&& forall|k: int| 0 <= k < self.entries@.len() ==> (#[trigger] self.entries@[k]).weight > 0
        &&& self.total_weight == weight_sum(self.entries@)
        &&& self.total_weight >= 0
    }

    pub fn new() -> (t: RandomTable)
        ensures
            t.wf(),
            t.entries@.len() == 0,
            t.total_weight == 0,
    {
        RandomTable { entries: Vec::new(), total_weight: 0 }
    }

    /// The table with `kind` added at the end. A weight that is not
    /// positive, or that would take the total beyond an `i32`, adds
    /// nothing.
    pub fn add(self, kind: SpawnKind, weight: i32) -> (t: RandomTable)
        requires
            self.wf(),
        ensures
            t.wf(),
            t.entries@ == (if weight > 0 && self.total_weight + weight <= i32::MAX {
                self.entries@.push(RandomEntry { kind, weight })
            } else {
                self.entries@
            }),
            t.total_weight == (if weight > 0 && self.total_weight + weight <= i32::MAX {
                self.total_weight + weight
            } else {
                self.total_weight as int
            }),
    {
        let mut table = self;
        if weight > 0 && weight <= 2147483647 - table.total_weight {
            proof {
                let longer = table.entries@.push(RandomEntry { kind, weight });
                assert(longer.drop_last() == table.entries@);
            }
            table.entries.push(RandomEntry { kind, weight });
            table.total_weight = table.total_weight + weight;
        }
        table
    }

    /// The kind that `roll` picks.
    pub fn pick(&self, roll: i32) -> (r: Option<SpawnKind>)
        requires
            self.wf(),
        ensures
            r == picked(self.entries@, roll as int),
    {
        if roll < 1 {
            return None;
        }
        let mut below: i32 = 0;
        let mut k: usize = 0;
        while k < self.entries.len()
            invariant
                self.wf(),
                roll >= 1,
                k <= self.entries@.len(),
                below == weight_sum(self.entries@.subrange(0, k as int)),
                below < roll,
                0 <= below <= self.total_weight,
            decreases self.entries@.len() - k,
        {
            let entry = self.entries[k];
            proof {
                let head = self.entries@.subrange(0, k as int + 1);
                assert(head.drop_last() == self.entries@.subrange(0, k as int));
                assert(head.last() == entry);
                lemma_weight_sum_grows(self.entries@, k as int + 1);
            }
            if roll <= below + entry.weight {
                proof {
                    lemma_picked_in_head(self.entries@, k as int + 1, roll as int);
                }
                return Some(entry.kind);
            }
            below = below + entry.weight;
            k += 1;
        }
        proof {
            assert(self.entries@.subrange(0, k as int) == self.entries@);
        }
        None
    }

    /// A kind drawn with the odds of its weight; `None` from an empty
    /// table.
    pub fn roll(&self, rng: &mut RandomNumberGenerator) -> (r: Option<SpawnKind>)
        requires
            self.wf(),
        ensures
            r is Some <==> self.total_weight > 0,
            r is Some ==> exists|k: int|
                0 <= k < self.entries@.len() && (#[trigger] self.entries@[k]).kind == r.unwrap(),
    {
        if self.total_weight <= 0 {
            proof {
                if self.entries@.len() > 0 {
                    lemma_weight_sum_grows(self.entries@, self.entries@.len() as int);
                    assert(self.entries@.subrange(0, self.entries@.len() as int) == self.entries@);
                    assert(self.entries@[0].weight > 0);
                    lemma_weight_sum_grows(self.entries@, 1);
                    assert(self.entries@.subrange(0,
                        1).drop_last() =~= Seq::<RandomEntry>::empty());
                }
            }
            return None;
        }
        let roll: i32 = range(rng, 0, self.total_weight) + 1;
        let r = self.pick(roll);
        proof {
            lemma_picked_is_entry(self.entries@, roll as int);
        }
        r
    }
}

/// The sum over a head of the list is no more than the sum over a longer
/// head, where weights are positive.
pub proof fn lemma_weight_sum_grows(entries: Seq<RandomEntry>, k: int)
    requires
        0 <= k <= entries.len(),
        forall|q: int| 0 <= q < entries.len() ==> (#[trigger] entries[q]).weight > 0,
    ensures
        0 <= weight_sum(entries.subrange(0, k)) <= weight_sum(entries),
    decreases entries.len() - k,
{
    if k == entries.len() {
        assert(entries.subrange(0, k) == entries);
        lemma_weight_sum_nonnegative(entries);
    } else {
        lemma_weight_sum_grows(entries, k + 1);
        let longer = entries.subrange(0, k + 1);
        assert(longer.drop_last() == entries.subrange(0, k));
        assert(longer.last() == entries[k]);
        lemma_weight_sum_nonnegative(entries.subrange(0, k));
    }
}

/// A sum of positive weights is not negative.
pub proof fn lemma_weight_sum_nonnegative(entries: Seq<RandomEntry>)
    requires
        forall|q: int| 0 <= q < entries.len() ==> (#[trigger] entries[q]).weight > 0,
    ensures
        weight_sum(entries) >= 0,
    decreases entries.len(),
{
    if entries.len() > 0 {
        assert forall|q: int| 0 <= q < entries.drop_last().len() implies (
        #[trigger] entries.drop_last()[q]).weight > 0 by {
            assert(entries.drop_last()[q] == entries[q]);
        }
        lemma_weight_sum_nonnegative(entries.drop_last());
    }
}

/// A roll that falls to the last entry of a head of the list falls to that
/// entry in the whole list.
proof fn lemma_picked_in_head(entries: Seq<RandomEntry>, k: int, roll: int)
    requires
        1 <= k <= entries.len(),
        forall|q: int| 0 <= q < entries.len() ==> (#[trigger] entries[q]).weight > 0,
        weight_sum(entries.subrange(0, k - 1)) < roll <= weight_sum(entries.subrange(0, k)),
        roll >= 1,
    ensures
        picked(entries, roll) == Some(entries[k - 1].kind),
    decreases entries.len() - k,
{
    if k == entries.len() {
        assert(entries.subrange(0, k) == entries);
        assert(entries.subrange(0, k - 1) == entries.drop_last());
    } else {
        let shorter = entries.drop_last();
        assert(shorter.subrange(0, k) == entries.subrange(0, k));
        assert(shorter.subrange(0, k - 1) == entries.subrange(0, k - 1));
        assert forall|q: int| 0 <= q < shorter.len() implies (#[trigger] shorter[q]).weight > 0 by {
            assert(shorter[q] == entries[q]);
        }
        lemma_picked_in_head(shorter, k, roll);
        lemma_weight_sum_grows(shorter, k);
    }
}

/// What a roll picks is the kind of some entry.
proof fn lemma_picked_is_entry(entries: Seq<RandomEntry>, roll: int)
    ensures
        picked(entries, roll) is Some ==> exists|k: int|
            0 <= k < entries.len() && (#[trigger] entries[k]).kind == picked(
                entries,
                roll,
            ).unwrap(),
        (1 <= roll <= weight_sum(entries) && forall|q: int|
            0 <= q < entries.len() ==> (#[trigger] entries[q]).weight > 0) ==> picked(
            entries,
            roll,
        ) is Some,
    decreases entries.len(),
{
    if entries.len() > 0 && roll >= 1 {
        let shorter = entries.drop_last();
        if roll <= weight_sum(shorter) {
            lemma_picked_is_entry(shorter, roll);
            if picked(shorter, roll) is Some {
                let k = choose|k: int|
                    0 <= k < shorter.len() && (#[trigger] shorter[k]).kind == picked(
                        shorter,
                        roll,
                    ).unwrap();
                assert(entries[k] == shorter[k]);
            }
            if forall|q: int| 0 <= q < entries.len() ==> (#[trigger] entries[q]).weight > 0 {
                assert forall|q: int| 0 <= q < shorter.len() implies (
                #[trigger] shorter[q]).weight > 0 by {
                    assert(shorter[q] == entries[q]);
                }
            }
        } else if roll <= weight_sum(entries) {
            assert(entries[entries.len() - 1].kind == picked(entries, roll).unwrap());
        }
    }
}

} // verus!
