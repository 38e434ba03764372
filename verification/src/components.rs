//! The data that can be attached to an entity.

use vstd::prelude::*;
use crate::entity::{Entities, Entity};
use crate::map::GameMap;
use crate::storage::Storage;

verus! {

/// A grid point.
#[derive(Clone, Copy, Debug, PartialEq, Eq, Structural, Hash)]
pub struct GridPoint {
    pub x: i32,
    pub y: i32,
}

/// Where an entity stands on the map.
#[derive(Clone, Copy, Debug, PartialEq, Eq, Structural)]
pub struct Position {
    pub x: i32,
    pub y: i32,
}

/// A colour as three 8-bit channels.
#[derive(Clone, Copy, Debug, PartialEq, Eq, Structural)]
pub struct Color {
    pub r: u8,
    pub g: u8,
    pub b: u8,
}

/// How an entity is drawn. Entities with a lower `render_order` are drawn
/// above those with a higher one.
#[derive(Clone, Copy, Debug, PartialEq, Eq, Structural)]
pub struct Renderable {
    pub symbol: u16,
    pub foreground: Color,
    pub background: Color,
    pub render_order: i32,
}

/// Marks the entity the user controls.
#[derive(Clone, Copy, Debug, PartialEq, Eq, Structural)]
pub struct Player {}

/// What an entity currently sees.
#[derive(Clone, Debug)]
pub struct FOV {
    pub visible_tiles: Vec<GridPoint>,
    pub range: i32,
    /// Set whenever the entity moved; cleared by the visibility pass.
    pub needs_update: bool,
}

/// Marks a hostile actor.
#[derive(Clone, Copy, Debug, PartialEq, Eq, Structural)]
pub struct Monster {}

#[derive(Clone, Debug)]
pub struct Name {
    pub name: String,
}

/// Marks an entity that nothing else can walk onto.
#[derive(Clone, Copy, Debug, PartialEq, Eq, Structural)]
pub struct BlocksTile {}

#[derive(Clone, Copy, Debug, PartialEq, Eq, Structural)]
pub struct CombatStats {
    pub max_hp: i32,
    pub hp: i32,
    pub attack: i32,
    pub defense: i32,
}

/// Intent: attack `target` in melee this turn.
#[derive(Clone, Copy, Debug, PartialEq, Eq, Structural)]
pub struct WantsToMelee {
    pub target: Entity,
}

/// Damage waiting to be applied this turn, one entry per hit.
#[derive(Clone, Debug)]
pub struct SuffersDamage {
    pub amount: Vec<i32>,
}

/// Marks an entity that can be carried.
#[derive(Clone, Copy, Debug, PartialEq, Eq, Structural)]
pub struct Item {}

#[derive(Clone, Copy, Debug, PartialEq, Eq, Structural)]
pub struct ProvidesHealing {
    pub heal_amount: i32,
}

/// The item is carried by `owner`.
#[derive(Clone, Copy, Debug, PartialEq, Eq, Structural)]
pub struct InBackpack {
    pub owner: Entity,
}

/// Intent: `collected_by` picks `item` up.
#[derive(Clone, Copy, Debug, PartialEq, Eq, Structural)]
pub struct WantsToPickUpItem {
    pub collected_by: Entity,
    pub item: Entity,
}

/// Intent: use `item`, on the user itself or at `target`.
#[derive(Clone, Copy, Debug, PartialEq, Eq, Structural)]
pub struct WantsToUseItem {
    pub item: Entity,
    pub target: Option<GridPoint>,
}

/// Intent: put `item` down where the holder stands.
#[derive(Clone, Copy, Debug, PartialEq, Eq, Structural)]
pub struct WantsToDropItem {
    pub item: Entity,
}

/// Intent: take `item` off and put it into the backpack.
#[derive(Clone, Copy, Debug, PartialEq, Eq, Structural)]
pub struct WantsToUnequipItem {
    pub item: Entity,
}

#[derive(Clone, Copy, Debug, PartialEq, Eq, Structural)]
pub struct Consumable {
    pub charges: i32,
}

#[derive(Clone, Copy, Debug, PartialEq, Eq, Structural)]
pub struct Ranged {
    pub range: i32,
}

#[derive(Clone, Copy, Debug, PartialEq, Eq, Structural)]
pub struct InflictsDamage {
    pub damage: i32,
}

#[derive(Clone, Copy, Debug, PartialEq, Eq, Structural)]
pub struct AreaOfEffect {
    pub radius: i32,
}

#[derive(Clone, Copy, Debug, PartialEq, Eq, Structural)]
pub struct CausesConfusion {
    pub turns: i32,
}

#[derive(Clone, Copy, Debug, PartialEq, Eq, Structural)]
pub struct IsConfused {
    pub turns: i32,
}

#[derive(Clone, Copy, Debug, PartialEq, Eq, Structural)]
pub struct GivesMovementSpeed {
    pub speed_modifier: i32,
    pub turns: i32,
}

#[derive(Clone, Copy, Debug, PartialEq, Eq, Structural)]
pub struct HasMovementSpeedModifier {
    pub speed_modifier: i32,
    pub max_turns: i32,
    pub turns_used: i32,
}

#[derive(Clone, Copy, Debug, PartialEq, Eq, Structural)]
pub enum EquipmentSlot {
    Melee,
    Shield,
}

#[derive(Clone, Copy, Debug, PartialEq, Eq, Structural)]
pub struct Equippable {
    pub slot: EquipmentSlot,
}

/// The item is worn by `owner` in `slot`.
#[derive(Clone, Copy, Debug, PartialEq, Eq, Structural)]
pub struct Equipped {
    pub owner: Entity,
    pub slot: EquipmentSlot,
}

#[derive(Clone, Copy, Debug, PartialEq, Eq, Structural)]
pub struct MeleePowerBonus {
    pub power: i32,
}

#[derive(Clone, Copy, Debug, PartialEq, Eq, Structural)]
pub struct DefenseBonus {
    pub defense: i32,
}

/// Marks an entity that is written to a saved game.
#[derive(Clone, Copy, Debug, PartialEq, Eq, Structural)]
pub struct SerializeMe;

/// Carries a copy of the map through a saved game.
pub struct SerializationHelper {
    pub map: GameMap,
}

/// The pending hits of slot `i`, oldest first; empty where nothing is queued.
pub open spec fn pending_damage(queue: &Storage<SuffersDamage>, i: int) -> Seq<i32> {
    match queue.at(i) {
        Some(d) => d.amount@,
        None => Seq::empty(),
    }
}

impl SuffersDamage {
    /// Queues `amount` for `entity`, behind what is already queued. A dead
    /// `entity` takes no damage.
    pub fn new_damage(
        suffers_damage: &mut Storage<SuffersDamage>,
        entities: &Entities,
        entity: Entity,
        amount: i32,
    )
        requires
            entities.wf(),
            old(suffers_damage).within(entities),
        ensures
            final(suffers_damage).within(entities),
            entities.is_alive(entity) ==> pending_damage(final(suffers_damage), entity.id as int)
                == pending_damage(old(suffers_damage), entity.id as int).push(amount),
            entities.is_alive(entity) ==> final(suffers_damage).has(entity.id as int),
            forall|j: int|
                #![trigger final(suffers_damage).at(j)]
                #![trigger old(suffers_damage).at(j)]
                !(entities.is_alive(entity) && j == entity.id) ==> final(suffers_damage).at(j)
                    == old(suffers_damage).at(j),
    {
        if !entities.is_entity_alive(entity) {
            return ;
        }
        let mut amounts: Vec<i32> = match suffers_damage.unset(entity.id) {
            Some(d) => d.amount,
            None => Vec::new(),
        };
        amounts.push(amount);
        suffers_damage.set(entity.id, SuffersDamage { amount: amounts });
    }
}

/// A copy of `v`.
pub fn copy_vec<T: Copy>(v: &Vec<T>) -> (r: Vec<T>)
    ensures
        r@ == v@,
{
    let mut r: Vec<T> = Vec::new();
    let mut k: usize = 0;
    while k < v.len()
        invariant
            k <= v@.len(),
            r@ == v@.subrange(0, k as int),
        decreases v@.len() - k,
    {
        r.push(v[k]);
        assert(v@.subrange(0, k as int + 1) == v@.subrange(0, k as int).push(v@[k as int]));
        k += 1;
    }
    assert(v@.subrange(0, v@.len() as int) == v@);
    r
}

impl FOV {
    /// The two views hold the same tiles in the same order, reach as far,
    /// and agree on whether they ask to be brought up to date.
    pub open spec fn alike(&self, other: &FOV) -> bool {
        self.visible_tiles@ == other.visible_tiles@ && self.range == other.range
            && self.needs_update == other.needs_update
    }

    pub fn copy(&self) -> (r: FOV)
        ensures
            r.alike(self),
    {
        FOV {
            visible_tiles: copy_vec(&self.visible_tiles),
            range: self.range,
            needs_update: self.needs_update,
        }
    }
}

impl Name {
    /// The two names read the same.
    pub open spec fn alike(&self, other: &Name) -> bool {
        self.name@ == other.name@
    }

    pub fn copy(&self) -> (r: Name)
        ensures
            r.alike(self),
    {
        Name { name: self.name.clone() }
    }
}

impl SuffersDamage {
    /// The two queues hold the same hits in the same order.
    pub open spec fn alike(&self, other: &SuffersDamage) -> bool {
        self.amount@ == other.amount@
    }

    pub fn copy(&self) -> (r: SuffersDamage)
        ensures
            r.alike(self),
    {
        SuffersDamage { amount: copy_vec(&self.amount) }
    }
}

impl SerializationHelper {
    /// The two carry maps that agree in everything.
    pub open spec fn alike(&self, other: &SerializationHelper) -> bool {
        self.map.alike(&other.map)
    }

    pub fn copy(&self) -> (r: SerializationHelper)
        ensures
            r.alike(self),
    {
        SerializationHelper { map: self.map.copy() }
    }
}

} // verus!
