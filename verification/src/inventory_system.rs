//! Picking up, dropping and taking off items. Using an item has a module
//! of its own, `item_use`; its pass is named here too.
//!
//! Each pass works through the intents of one kind in the order of the
//! entity slots, and leaves no intent of that kind behind. What a pass does
//! is stated as a chain of worlds: one link per slot, each link the effect
//! of that slot's intent on the world the link before it left.

use vstd::prelude::*;
use crate::components::{InBackpack, Position, WantsToDropItem, WantsToPickUpItem,
    WantsToUnequipItem};
use crate::entity::Entity;
use crate::gamelog::LogEntry;
pub use crate::item_use::ItemUseSystem;
use crate::world::World;

verus! {

/// Resolves the intents to pick an item up.
pub struct ItemCollectionSystem {}

impl ItemCollectionSystem {
    /// `after` is `before` with the pick-up intent of slot `i` carried out:
    /// the item leaves the map for the collector's backpack, and the log
    /// tells of it if the collector is the player. A dead item is passed
    /// over. A slot without such an intent changes nothing.
    pub open spec fn step(before: &World, after: &World, i: int) -> bool {
        match before.wants_to_pickup_item.at(i) {
            None => *after == *before,
            Some(intent) => {
                &&& *after == (World {
                    positions: after.positions,
                    in_backpack: after.in_backpack,
                    gamelog: after.gamelog,
                    ..*before
                })
                &&& forall|j: int|
                    #![trigger after.positions.at(j)]
                    #![trigger before.positions.at(j)]
                    after.positions.at(j) == (if before.entities.is_alive(intent.item) && j
                        == intent.item.id {
                        None
                    } else {
                        before.positions.at(j)
                    })
                &&& forall|j: int|
                    #![trigger after.in_backpack.at(j)]
                    #![trigger before.in_backpack.at(j)]
                    after.in_backpack.at(j) == (if before.entities.is_alive(intent.item) && j
                        == intent.item.id {
                        Some(InBackpack { owner: intent.collected_by })
                    } else {
                        before.in_backpack.at(j)
                    })
                &&& after.gamelog.entries@ == (if before.entities.is_alive(intent.item)
                    && before.is_player(intent.collected_by) {
                    before.gamelog.entries@.push(
                        LogEntry::PickedUp { item: before.name_of(intent.item) },
                    )
                } else {
                    before.gamelog.entries@
                })
            },
        }
    }

    /// Link `k` of `trace` is the step of slot `k`.
    pub open spec fn link(trace: Seq<World>, k: int) -> bool {
        Self::step(&trace[k], &trace[k + 1], k)
    }

    /// `trace` leads from `before` to `after`: one step per slot, then every
    /// pick-up intent is dropped.
    pub open spec fn is_run(before: &World, after: &World, trace: Seq<World>) -> bool {
        &&& trace.len() == before.wants_to_pickup_item.slots@.len() + 1
        &&& trace[0] == *before
        &&& forall|k: int| 0 <= k < trace.len() - 1 ==> #[trigger] Self::link(trace, k)
        &&& *after == (World { wants_to_pickup_item: after.wants_to_pickup_item, ..trace.last() })
        &&& after.wants_to_pickup_item.is_clear()
    }

    fn pick_up(world: &mut World, i: usize)
        requires
            old(world).wf(),
        ensures
            final(world).wf(),
            Self::step(old(world), final(world), i as int),
            final(world).wants_to_pickup_item == old(world).wants_to_pickup_item,
    {
        let intent: WantsToPickUpItem = match world.wants_to_pickup_item.slot(i) {
            Some(p) => *p,
            None => {
                return ;
            },
        };
        if !world.entities.is_entity_alive(intent.item) {
            return ;
        }
        world.positions.remove(&world.entities, intent.item);
        world.in_backpack.insert(
            &world.entities,
            intent.item,
            InBackpack { owner: intent.collected_by },
        );
        if intent.collected_by == world.player_entity {
            let item = world.name(intent.item);
            world.gamelog.push(LogEntry::PickedUp { item });
        }
    }

    /// `after` is `before` after the pick-up pass: no pick-up intent is
    /// left; some run leads from `before` to `after`; the log has only
    /// grown; and but for positions and backpacks nothing else changed.
    pub open spec fn ran(before: &World, after: &World) -> bool {
        &&& after.wants_to_pickup_item.is_clear()
        &&& *after == (World {
            positions: after.positions,
            in_backpack: after.in_backpack,
            gamelog: after.gamelog,
            wants_to_pickup_item: after.wants_to_pickup_item,
            ..*before
        })
        &&& before.gamelog.entries@.is_prefix_of(after.gamelog.entries@)
        &&& exists|trace: Seq<World>| #[trigger] Self::is_run(before, after, trace)
    }

    /// Carries out every pick-up intent, lowest slot first, and drops them
    /// all.
    pub fn run(&mut self, world: &mut World)
        requires
            old(world).wf(),
        ensures
            final(world).wf(),
            Self::ran(old(world), final(world)),
    {
        let n: usize = world.wants_to_pickup_item.len();
        let ghost mut trace: Seq<World> = seq![*world];
        let mut i: usize = 0;
        while i < n
            invariant
                world.wf(),
                i <= n,
                n == old(world).wants_to_pickup_item.slots@.len(),
                world.wants_to_pickup_item == old(world).wants_to_pickup_item,
                *world == (World {
                    positions: world.positions,
                    in_backpack: world.in_backpack,
                    gamelog: world.gamelog,
                    ..*old(world)
                }),
                trace.len() == i + 1,
                trace[0] == *old(world),
                trace.last() == *world,
                old(world).gamelog.entries@.is_prefix_of(world.gamelog.entries@),
                forall|k: int| 0 <= k < trace.len() - 1 ==> #[trigger] Self::link(trace, k),
            decreases n - i,
        {
            let ghost logged = world.gamelog.entries@;
            Self::pick_up(world, i);
            assert(logged.is_prefix_of(world.gamelog.entries@));
            proof {
                let longer = trace.push(*world);
                assert forall|k: int| 0 <= k < longer.len() - 1 implies #[trigger] Self::link(
                    longer,
                    k,
                ) by {
                    if k < trace.len() - 1 {
                        assert(Self::link(trace, k));
                    }
                }
                trace = longer;
            }
            i += 1;
        }
        world.wants_to_pickup_item.clear();
        proof {
            assert(Self::is_run(old(world), world, trace));
        }
    }
}

/// Resolves the intents to put an item down.
pub struct ItemDropSystem {}

impl ItemDropSystem {
    /// `after` is `before` with the drop intent of slot `i` carried out: the
    /// item leaves the backpack for the place where its holder stands, and
    /// the log tells of it if the holder is the player. A dead item, or a
    /// holder that stands nowhere, is passed over. A slot without such an
    /// intent changes nothing.
    pub open spec fn step(before: &World, after: &World, i: int) -> bool {
        match (before.wants_to_drop_item.at(i), before.positions.at(i)) {
            (Some(intent), Some(place)) if before.entities.is_alive(intent.item) => {
                &&& *after == (World {
                    positions: after.positions,
                    in_backpack: after.in_backpack,
                    gamelog: after.gamelog,
                    ..*before
                })
                &&& forall|j: int|
                    #![trigger after.positions.at(j)]
                    #![trigger before.positions.at(j)]
                    after.positions.at(j) == (if j == intent.item.id {
                        Some(Position { x: place.x, y: place.y })
                    } else {
                        before.positions.at(j)
                    })
                &&& forall|j: int|
                    #![trigger after.in_backpack.at(j)]
                    #![trigger before.in_backpack.at(j)]
                    after.in_backpack.at(j) == (if j == intent.item.id {
                        None
                    } else {
                        before.in_backpack.at(j)
                    })
                &&& after.gamelog.entries@ == (if before.is_player(before.entities.entity_at(i)) {
                    before.gamelog.entries@.push(
                        LogEntry::Dropped { item: before.name_of(intent.item) },
                    )
                } else {
                    before.gamelog.entries@
                })
            },
            _ => *after == *before,
        }
    }

    fn apply(world: &mut World, i: usize)
        requires
            old(world).wf(),
        ensures
            final(world).wf(),
            Self::step(old(world), final(world), i as int),
            final(world).wants_to_drop_item == old(world).wants_to_drop_item,
    {
        let intent: WantsToDropItem = match world.wants_to_drop_item.slot(i) {
            Some(p) => *p,
            None => {
                return ;
            },
        };
        let place: Position = match world.positions.slot(i) {
            Some(p) => *p,
            None => {
                return ;
            },
        };
        if !world.entities.is_entity_alive(intent.item) {
            return ;
        }
        let holder = world.entities.entity(i);
        world.positions.insert(&world.entities, intent.item, Position { x: place.x, y: place.y });
        world.in_backpack.remove(&world.entities, intent.item);
        if holder == world.player_entity {
            let item = world.name(intent.item);
            world.gamelog.push(LogEntry::Dropped { item });
        }
    }

    /// Link `k` of `trace` is the step of slot `k`.
    pub open spec fn link(trace: Seq<World>, k: int) -> bool {
        Self::step(&trace[k], &trace[k + 1], k)
    }

    /// `trace` leads from `before` to `after`: one step per slot, then every
    /// intent of this kind is dropped.
    pub open spec fn is_run(before: &World, after: &World, trace: Seq<World>) -> bool {
        &&& trace.len() == before.wants_to_drop_item.slots@.len() + 1
        &&& trace[0] == *before
        &&& forall|k: int| 0 <= k < trace.len() - 1 ==> #[trigger] Self::link(trace, k)
        &&& *after == (World { wants_to_drop_item: after.wants_to_drop_item, ..trace.last() })
        &&& after.wants_to_drop_item.is_clear()
    }

    /// `after` is `before` after the drop pass: no drop intent is left;
    /// some run leads from `before` to `after`; the log has only grown; and
    /// but for positions and backpacks nothing else changed.
    pub open spec fn ran(before: &World, after: &World) -> bool {
        &&& after.wants_to_drop_item.is_clear()
        &&& *after == (World {
            positions: after.positions,
            in_backpack: after.in_backpack,
            gamelog: after.gamelog,
            wants_to_drop_item: after.wants_to_drop_item,
            ..*before
        })
        &&& before.gamelog.entries@.is_prefix_of(after.gamelog.entries@)
        &&& exists|trace: Seq<World>| #[trigger] Self::is_run(before, after, trace)
    }

    /// Carries out every drop intent, lowest slot first, and drops them all.
    pub fn run(&mut self, world: &mut World)
        requires
            old(world).wf(),
        ensures
            final(world).wf(),
            Self::ran(old(world), final(world)),
    {
        let n: usize = world.wants_to_drop_item.len();
        let ghost mut trace: Seq<World> = seq![*world];
        let mut i: usize = 0;
        while i < n
            invariant
                world.wf(),
                i <= n,
                n == old(world).wants_to_drop_item.slots@.len(),
                world.wants_to_drop_item == old(world).wants_to_drop_item,
                *world == (World {
                    positions: world.positions,
                    in_backpack: world.in_backpack,
                    gamelog: world.gamelog,
                    ..*old(world)
                }),
                trace.len() == i + 1,
                trace[0] == *old(world),
                trace.last() == *world,
                old(world).gamelog.entries@.is_prefix_of(world.gamelog.entries@),
                forall|k: int| 0 <= k < trace.len() - 1 ==> #[trigger] Self::link(trace, k),
            decreases n - i,
        {
            let ghost logged = world.gamelog.entries@;
            Self::apply(world, i);
            assert(logged.is_prefix_of(world.gamelog.entries@));
            proof {
                let longer = trace.push(*world);
                assert forall|k: int| 0 <= k < longer.len() - 1 implies #[trigger] Self::link(
                    longer,
                    k,
                ) by {
                    if k < trace.len() - 1 {
                        assert(Self::link(trace, k));
                    }
                }
                trace = longer;
            }
            i += 1;
        }
        world.wants_to_drop_item.clear();
        proof {
            assert(Self::is_run(old(world), world, trace));
        }
    }
}

/// Resolves the intents to take an item off.
pub struct ItemUnequipSystem {}

impl ItemUnequipSystem {
    /// `after` is `before` with the intent of slot `i` carried out: the item
    /// is worn no longer and lies in the backpack of the entity that asked,
    /// and the log tells of it if that is the player. A dead item is passed
    /// over. A slot without such an intent changes nothing.
    pub open spec fn step(before: &World, after: &World, i: int) -> bool {
        match before.wants_to_unequip_item.at(i) {
            Some(intent) if before.entities.is_alive(intent.item) => {
                &&& *after == (World {
                    equipped: after.equipped,
                    in_backpack: after.in_backpack,
                    gamelog: after.gamelog,
                    ..*before
                })
                &&& forall|j: int|
                    #![trigger after.equipped.at(j)]
                    #![trigger before.equipped.at(j)]
                    after.equipped.at(j) == (if j == intent.item.id {
                        None
                    } else {
                        before.equipped.at(j)
                    })
                &&& forall|j: int|
                    #![trigger after.in_backpack.at(j)]
                    #![trigger before.in_backpack.at(j)]
                    after.in_backpack.at(j) == (if j == intent.item.id {
                        Some(InBackpack { owner: before.entities.entity_at(i) })
                    } else {
                        before.in_backpack.at(j)
                    })
                &&& after.gamelog.entries@ == (if before.is_player(before.entities.entity_at(i)) {
                    before.gamelog.entries@.push(
                        LogEntry::Unequipped { item: before.name_of(intent.item) },
                    )
                } else {
                    before.gamelog.entries@
                })
            },
            _ => *after == *before,
        }
    }

    fn apply(world: &mut World, i: usize)
        requires
            old(world).wf(),
        ensures
            final(world).wf(),
            Self::step(old(world), final(world), i as int),
            final(world).wants_to_unequip_item == old(world).wants_to_unequip_item,
    {
        let intent: WantsToUnequipItem = match world.wants_to_unequip_item.slot(i) {
            Some(p) => *p,
            None => {
                return ;
            },
        };
        if !world.entities.is_entity_alive(intent.item) {
            return ;
        }
        let wearer = world.entities.entity(i);
        world.equipped.remove(&world.entities, intent.item);
        world.in_backpack.insert(&world.entities, intent.item, InBackpack { owner: wearer });
        if wearer == world.player_entity {
            let item = world.name(intent.item);
            world.gamelog.push(LogEntry::Unequipped { item });
        }
    }

    /// Link `k` of `trace` is the step of slot `k`.
    pub open spec fn link(trace: Seq<World>, k: int) -> bool {
        Self::step(&trace[k], &trace[k + 1], k)
    }

    /// `trace` leads from `before` to `after`: one step per slot, then every
    /// intent of this kind is dropped.
    pub open spec fn is_run(before: &World, after: &World, trace: Seq<World>) -> bool {
        &&& trace.len() == before.wants_to_unequip_item.slots@.len() + 1
        &&& trace[0] == *before
        &&& forall|k: int| 0 <= k < trace.len() - 1 ==> #[trigger] Self::link(trace, k)
        &&& *after == (World { wants_to_unequip_item: after.wants_to_unequip_item, ..trace.last() })
        &&& after.wants_to_unequip_item.is_clear()
    }

    /// `after` is `before` after the pass: no intent to take something off
    /// is left; some run leads from `before` to `after`; the log has only
    /// grown; and but for what is worn and carried nothing else changed.
    pub open spec fn ran(before: &World, after: &World) -> bool {
        &&& after.wants_to_unequip_item.is_clear()
        &&& *after == (World {
            equipped: after.equipped,
            in_backpack: after.in_backpack,
            gamelog: after.gamelog,
            wants_to_unequip_item: after.wants_to_unequip_item,
            ..*before
        })
        &&& before.gamelog.entries@.is_prefix_of(after.gamelog.entries@)
        &&& exists|trace: Seq<World>| #[trigger] Self::is_run(before, after, trace)
    }

    /// Carries out every such intent, lowest slot first, and drops them all.
    pub fn run(&mut self, world: &mut World)
        requires
            old(world).wf(),
        ensures
            final(world).wf(),
            Self::ran(old(world), final(world)),
    {
        let n: usize = world.wants_to_unequip_item.len();
        let ghost mut trace: Seq<World> = seq![*world];
        let mut i: usize = 0;
        while i < n
            invariant
                world.wf(),
                i <= n,
                n == old(world).wants_to_unequip_item.slots@.len(),
                world.wants_to_unequip_item == old(world).wants_to_unequip_item,
                *world == (World {
                    equipped: world.equipped,
                    in_backpack: world.in_backpack,
                    gamelog: world.gamelog,
                    ..*old(world)
                }),
                trace.len() == i + 1,
                trace[0] == *old(world),
                trace.last() == *world,
                old(world).gamelog.entries@.is_prefix_of(world.gamelog.entries@),
                forall|k: int| 0 <= k < trace.len() - 1 ==> #[trigger] Self::link(trace, k),
            decreases n - i,
        {
            let ghost logged = world.gamelog.entries@;
            Self::apply(world, i);
            assert(logged.is_prefix_of(world.gamelog.entries@));
            proof {
                let longer = trace.push(*world);
                assert forall|k: int| 0 <= k < longer.len() - 1 implies #[trigger] Self::link(
                    longer,
                    k,
                ) by {
                    if k < trace.len() - 1 {
                        assert(Self::link(trace, k));
                    }
                }
                trace = longer;
            }
            i += 1;
        }
        world.wants_to_unequip_item.clear();
        proof {
            assert(Self::is_run(old(world), world, trace));
        }
    }
}

/// An item that is picked up is carried and lies on the map no longer.
pub proof fn lemma_picked_up_item_is_carried(before: &World, after: &World, i: int)
    requires
        ItemCollectionSystem::step(before, after, i),
        before.wants_to_pickup_item.at(i) is Some,
        before.entities.is_alive(before.wants_to_pickup_item.at(i).unwrap().item),
    ensures
        ({
            let intent = before.wants_to_pickup_item.at(i).unwrap();
            &&& after.positions.at(intent.item.id as int) is None
            &&& after.in_backpack.at(intent.item.id as int) == Some(
                InBackpack { owner: intent.collected_by },
            )
        }),
{
}

/// An item that is dropped lies where its holder stands and is carried no
/// longer.
pub proof fn lemma_dropped_item_lies_on_the_map(before: &World, after: &World, i: int)
    requires
        ItemDropSystem::step(before, after, i),
        before.wants_to_drop_item.at(i) is Some,
        before.positions.at(i) is Some,
        before.entities.is_alive(before.wants_to_drop_item.at(i).unwrap().item),
    ensures
        ({
            let item = before.wants_to_drop_item.at(i).unwrap().item;
            let place = before.positions.at(i).unwrap();
            &&& after.in_backpack.at(item.id as int) is None
            &&& after.positions.at(item.id as int) == Some(Position { x: place.x, y: place.y })
        }),
{
}

/// Dropping an item and picking it up again leaves it carried by whoever
/// picks it up, off the map, and with everything else it had.
pub proof fn lemma_drop_then_pick_up(
    first: &World,
    second: &World,
    third: &World,
    holder: int,
    item: Entity,
    collector: Entity,
)
    requires
        ItemDropSystem::step(first, second, holder),
        first.wants_to_drop_item.at(holder) == Some(WantsToDropItem { item }),
        first.positions.at(holder) is Some,
        first.entities.is_alive(item),
        item.id != holder,
        ItemCollectionSystem::step(second, third, item.id as int),
        second.wants_to_pickup_item.at(item.id as int) == Some(
            WantsToPickUpItem { collected_by: collector, item },
        ),
    ensures
        third.entities.is_alive(item),
        third.positions.at(item.id as int) is None,
        third.in_backpack.at(item.id as int) == Some(InBackpack { owner: collector }),
        third.names == first.names,
        third.items == first.items,
        third.positions.at(holder) == first.positions.at(holder),
{
}

/// An item that is taken off is carried and worn no longer.
pub proof fn lemma_unequipped_item_is_carried(before: &World, after: &World, i: int)
    requires
        ItemUnequipSystem::step(before, after, i),
        before.wants_to_unequip_item.at(i) is Some,
        before.entities.is_alive(before.wants_to_unequip_item.at(i).unwrap().item),
    ensures
        ({
            let item = before.wants_to_unequip_item.at(i).unwrap().item;
            &&& after.equipped.at(item.id as int) is None
            &&& after.in_backpack.at(item.id as int) == Some(
                InBackpack { owner: before.entities.entity_at(i) },
            )
        }),
{
}

/// What the pick-up intents of the first `n` slots of `w` add to the log:
/// one entry for each live item that the player picks up, lowest slot
/// first.
pub open spec fn pick_up_log(w: &World, n: int) -> Seq<LogEntry>
    decreases n,
{
    if n <= 0 {
        Seq::empty()
    } else {
        let rest = pick_up_log(w, n - 1);
        match w.wants_to_pickup_item.at(n - 1) {
            Some(intent) if w.entities.is_alive(intent.item)
                && w.is_player(intent.collected_by) => {
                rest.push(LogEntry::PickedUp { item: w.name_of(intent.item) })
            },
            _ => rest,
        }
    }
}

/// No slot but `u` holds a pick-up intent that names the slot of `item`.
pub open spec fn sole_pick_up(w: &World, u: int, item: Entity) -> bool {
    forall|q: int|
        q != u && #[trigger] w.wants_to_pickup_item.at(q) is Some ==> w.wants_to_pickup_item.at(
            q,
        ).unwrap().item.id != item.id
}

/// The world after the first `k` steps of a pick-up pass: but for
/// positions, backpacks and the log it is the world before the pass, and
/// the log has grown by what the first `k` slots tell.
proof fn lemma_pick_up_steps(before: &World, after: &World, trace: Seq<World>, k: int)
    requires
        ItemCollectionSystem::is_run(before, after, trace),
        0 <= k <= before.wants_to_pickup_item.slots@.len(),
    ensures
        trace[k] == (World {
            positions: trace[k].positions,
            in_backpack: trace[k].in_backpack,
            gamelog: trace[k].gamelog,
            ..*before
        }),
        trace[k].gamelog.entries@ == before.gamelog.entries@ + pick_up_log(before, k),
    decreases k,
{
    if k > 0 {
        lemma_pick_up_steps(before, after, trace, k - 1);
        assert(ItemCollectionSystem::link(trace, k - 1));
        let told = pick_up_log(before, k - 1);
        match before.wants_to_pickup_item.at(k - 1) {
            Some(intent) => {
                let entry = LogEntry::PickedUp { item: before.name_of(intent.item) };
                assert((before.gamelog.entries@ + told).push(entry) =~= before.gamelog.entries@
                    + told.push(entry));
            },
            None => {},
        }
    } else {
        assert(before.gamelog.entries@ + pick_up_log(before, 0) =~= before.gamelog.entries@);
    }
}

/// Where the item `item` lies and who carries it after the first `k` steps
/// of a pick-up pass in which only slot `u` names it.
proof fn lemma_sole_pick_up_through_the_run(
    before: &World,
    after: &World,
    trace: Seq<World>,
    u: int,
    item: Entity,
    k: int,
)
    requires
        ItemCollectionSystem::is_run(before, after, trace),
        0 <= u < before.wants_to_pickup_item.slots@.len(),
        before.wants_to_pickup_item.at(u) is Some,
        before.wants_to_pickup_item.at(u).unwrap().item == item,
        before.entities.is_alive(item),
        sole_pick_up(before, u, item),
        0 <= k <= before.wants_to_pickup_item.slots@.len(),
    ensures
        trace[k].positions.at(item.id as int) == (if k > u {
            None
        } else {
            before.positions.at(item.id as int)
        }),
        trace[k].in_backpack.at(item.id as int) == (if k > u {
            Some(InBackpack { owner: before.wants_to_pickup_item.at(u).unwrap().collected_by })
        } else {
            before.in_backpack.at(item.id as int)
        }),
    decreases k,
{
    if k > 0 {
        lemma_sole_pick_up_through_the_run(before, after, trace, u, item, k - 1);
        lemma_pick_up_steps(before, after, trace, k - 1);
        assert(ItemCollectionSystem::link(trace, k - 1));
    }
}

/// The pick-up pass, whoever else picks up something else: a live item that
/// one intent names is afterwards the same live entity, lies on the map no
/// longer, and is carried by the collector that the intent names.
pub proof fn lemma_pick_up_pass_carries_the_item(
    before: &World,
    after: &World,
    u: int,
    item: Entity,
    collector: Entity,
)
    requires
        ItemCollectionSystem::ran(before, after),
        before.wants_to_pickup_item.at(u) == Some(
            WantsToPickUpItem { collected_by: collector, item },
        ),
        before.entities.is_alive(item),
        sole_pick_up(before, u, item),
    ensures
        after.entities.is_alive(item),
        after.positions.at(item.id as int) is None,
        after.in_backpack.at(item.id as int) == Some(InBackpack { owner: collector }),
{
    let trace = choose|trace: Seq<World>| #[trigger]
        ItemCollectionSystem::is_run(before, after, trace);
    let n = before.wants_to_pickup_item.slots@.len() as int;
    lemma_sole_pick_up_through_the_run(before, after, trace, u, item, n);
}

/// The pick-up pass adds to the log one entry for each live item that the
/// player picks up, in the order of the slots, and nothing for what others
/// pick up.
pub proof fn lemma_pick_up_pass_tells_the_player_alone(before: &World, after: &World)
    requires
        ItemCollectionSystem::ran(before, after),
    ensures
        after.gamelog.entries@ == before.gamelog.entries@ + pick_up_log(
            before,
            before.wants_to_pickup_item.slots@.len() as int,
        ),
{
    let trace = choose|trace: Seq<World>| #[trigger]
        ItemCollectionSystem::is_run(before, after, trace);
    lemma_pick_up_steps(before, after, trace, before.wants_to_pickup_item.slots@.len() as int);
}

/// No slot but `h` holds a drop intent that names the slot of `item`, and
/// none holds one that names slot `h`.
pub open spec fn sole_drop(w: &World, h: int, item: Entity) -> bool {
    &&& forall|q: int|
        q != h && #[trigger] w.wants_to_drop_item.at(q) is Some ==> w.wants_to_drop_item.at(
            q,
        ).unwrap().item.id != item.id
    &&& forall|q: int| #[trigger]
        w.wants_to_drop_item.at(q) is Some ==> w.wants_to_drop_item.at(q).unwrap().item.id != h
}

/// The world after the first `k` steps of a drop pass is, but for
/// positions, backpacks and the log, the world before the pass.
proof fn lemma_drop_steps(before: &World, after: &World, trace: Seq<World>, k: int)
    requires
        ItemDropSystem::is_run(before, after, trace),
        0 <= k <= before.wants_to_drop_item.slots@.len(),
    ensures
        trace[k] == (World {
            positions: trace[k].positions,
            in_backpack: trace[k].in_backpack,
            gamelog: trace[k].gamelog,
            ..*before
        }),
    decreases k,
{
    if k > 0 {
        lemma_drop_steps(before, after, trace, k - 1);
        assert(ItemDropSystem::link(trace, k - 1));
    }
}

/// Where the item `item` lies and whether it is carried after the first `k`
/// steps of a drop pass in which only slot `h` names it and nobody drops
/// the holder.
proof fn lemma_sole_drop_through_the_run(
    before: &World,
    after: &World,
    trace: Seq<World>,
    h: int,
    item: Entity,
    k: int,
)
    requires
        ItemDropSystem::is_run(before, after, trace),
        0 <= h < before.wants_to_drop_item.slots@.len(),
        before.wants_to_drop_item.at(h) == Some(WantsToDropItem { item }),
        before.positions.at(h) is Some,
        before.entities.is_alive(item),
        sole_drop(before, h, item),
        0 <= k <= before.wants_to_drop_item.slots@.len(),
    ensures
        trace[k].positions.at(h) == before.positions.at(h),
        trace[k].positions.at(item.id as int) == (if k > h {
            Some(
                Position { x: before.positions.at(h).unwrap().x,
                    y: before.positions.at(h).unwrap().y },
            )
        } else {
            before.positions.at(item.id as int)
        }),
        trace[k].in_backpack.at(item.id as int) == (if k > h {
            None
        } else {
            before.in_backpack.at(item.id as int)
        }),
    decreases k,
{
    if k > 0 {
        lemma_sole_drop_through_the_run(before, after, trace, h, item, k - 1);
        lemma_drop_steps(before, after, trace, k - 1);
        assert(ItemDropSystem::link(trace, k - 1));
        assert(before.wants_to_drop_item.at(k - 1) is Some ==> before.wants_to_drop_item.at(
            k - 1,
        ).unwrap().item.id != h);
    }
}

/// The drop pass, whoever else drops something else: a live item that one
/// intent names, held by one who stands on the map and is not dropped
/// oneself, is afterwards the same live entity, lies where its holder
/// stands, and is carried no longer.
pub proof fn lemma_drop_pass_puts_the_item_down(
    before: &World,
    after: &World,
    h: int,
    item: Entity,
    place: Position,
)
    requires
        ItemDropSystem::ran(before, after),
        before.wants_to_drop_item.at(h) == Some(WantsToDropItem { item }),
        before.positions.at(h) == Some(place),
        before.entities.is_alive(item),
        sole_drop(before, h, item),
    ensures
        after.entities.is_alive(item),
        after.positions.at(h) == Some(place),
        after.positions.at(item.id as int) == Some(Position { x: place.x, y: place.y }),
        after.in_backpack.at(item.id as int) is None,
{
    let trace = choose|trace: Seq<World>| #[trigger] ItemDropSystem::is_run(before, after, trace);
    let n = before.wants_to_drop_item.slots@.len() as int;
    lemma_sole_drop_through_the_run(before, after, trace, h, item, n);
}

/// What the drop pass adds to the log of `w`: one entry if the player
/// stands on the map and drops a live item, else nothing.
pub open spec fn drop_log(w: &World) -> Seq<LogEntry> {
    let p = w.player_entity.id as int;
    match (w.wants_to_drop_item.at(p), w.positions.at(p)) {
        (Some(intent), Some(_)) if w.entities.is_alive(intent.item) && w.is_player(
            w.entities.entity_at(p),
        ) => seq![LogEntry::Dropped { item: w.name_of(intent.item) }],
        _ => Seq::empty(),
    }
}

/// The log after the first `k` steps of a drop pass in which nobody drops
/// the player.
proof fn lemma_drop_log_through_the_run(
    before: &World,
    after: &World,
    trace: Seq<World>,
    k: int,
)
    requires
        ItemDropSystem::is_run(before, after, trace),
        forall|q: int| #[trigger]
            before.wants_to_drop_item.at(q) is Some ==> before.wants_to_drop_item.at(
                q,
            ).unwrap().item.id != before.player_entity.id,
        0 <= k <= before.wants_to_drop_item.slots@.len(),
    ensures
        trace[k].positions.at(before.player_entity.id as int) == before.positions.at(
            before.player_entity.id as int,
        ),
        trace[k].gamelog.entries@ == (if k > before.player_entity.id {
            before.gamelog.entries@ + drop_log(before)
        } else {
            before.gamelog.entries@
        }),
    decreases k,
{
    let p = before.player_entity.id as int;
    if k > 0 {
        lemma_drop_log_through_the_run(before, after, trace, k - 1);
        lemma_drop_steps(before, after, trace, k - 1);
        assert(ItemDropSystem::link(trace, k - 1));
        assert(before.wants_to_drop_item.at(k - 1) is Some ==> before.wants_to_drop_item.at(
            k - 1,
        ).unwrap().item.id != p);
        if k - 1 == p {
            match (before.wants_to_drop_item.at(p), before.positions.at(p)) {
                (Some(intent), Some(_)) => {
                    let entry = LogEntry::Dropped { item: before.name_of(intent.item) };
                    assert(before.gamelog.entries@.push(entry) =~= before.gamelog.entries@
                        + seq![entry]);
                },
                _ => {},
            }
            assert(before.gamelog.entries@ + Seq::<LogEntry>::empty() =~= before.gamelog.entries@);
        } else {
            assert(before.wants_to_drop_item.slots.len() == before.wants_to_drop_item.slots@.len());
            assert(!before.is_player(before.entities.entity_at(k - 1)));
        }
    }
}

/// The drop pass tells of the player alone: where nobody drops the player,
/// the log grows by one entry if the player stands on the map and drops a
/// live item, and not at all otherwise, whatever others drop.
pub proof fn lemma_drop_pass_tells_the_player_alone(before: &World, after: &World)
    requires
        ItemDropSystem::ran(before, after),
        forall|q: int| #[trigger]
            before.wants_to_drop_item.at(q) is Some ==> before.wants_to_drop_item.at(
                q,
            ).unwrap().item.id != before.player_entity.id,
    ensures
        after.gamelog.entries@ == before.gamelog.entries@ + drop_log(before),
{
    let trace = choose|trace: Seq<World>| #[trigger] ItemDropSystem::is_run(before, after, trace);
    let n = before.wants_to_drop_item.slots@.len() as int;
    lemma_drop_log_through_the_run(before, after, trace, n);
    if !(n > before.player_entity.id) {
        assert(before.wants_to_drop_item.at(before.player_entity.id as int) is None);
        assert(before.gamelog.entries@ + Seq::<LogEntry>::empty() =~= before.gamelog.entries@);
    }
}

/// A drop pass and then a pick-up pass bring an item back whole: where the
/// holder drops the item, the intent to pick it up again is then set, and
/// no other intent stands in the way, the item is the same live entity,
/// carried by the one who picks it up, and off the map; and but for
/// positions, backpacks, the log and the two kinds of intent, every
/// component of every entity is what it was before the drop.
pub proof fn lemma_drop_pass_then_pick_up_pass(
    first: &World,
    second: &World,
    third: &World,
    fourth: &World,
    h: int,
    u: int,
    item: Entity,
    collector: Entity,
)
    requires
        ItemDropSystem::ran(first, second),
        first.wants_to_drop_item.at(h) == Some(WantsToDropItem { item }),
        first.positions.at(h) is Some,
        first.entities.is_alive(item),
        sole_drop(first, h, item),
        *third == (World { wants_to_pickup_item: third.wants_to_pickup_item, ..*second }),
        third.wants_to_pickup_item.at(u) == Some(
            WantsToPickUpItem { collected_by: collector, item },
        ),
        sole_pick_up(third, u, item),
        ItemCollectionSystem::ran(third, fourth),
    ensures
        fourth.entities.is_alive(item),
        fourth.positions.at(item.id as int) is None,
        fourth.in_backpack.at(item.id as int) == Some(InBackpack { owner: collector }),
        *fourth == (World {
            positions: fourth.positions,
            in_backpack: fourth.in_backpack,
            gamelog: fourth.gamelog,
            wants_to_drop_item: fourth.wants_to_drop_item,
            wants_to_pickup_item: fourth.wants_to_pickup_item,
            ..*first
        }),
{
    lemma_drop_pass_puts_the_item_down(first, second, h, item, first.positions.at(h).unwrap());
    lemma_pick_up_pass_carries_the_item(third, fourth, u, item, collector);
}

} // verus!
