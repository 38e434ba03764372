//! What one entity can carry, taken together: an outfit. Outfits are what
//! entities are created with, and what is written to a saved game.

use vstd::prelude::*;
use crate::components::{
    AreaOfEffect,
    BlocksTile,
    CausesConfusion,
    CombatStats,
    Consumable,
    DefenseBonus,
    Equippable,
    Equipped,
    GivesMovementSpeed,
    HasMovementSpeedModifier,
    InBackpack,
    InflictsDamage,
    IsConfused,
    Item,
    MeleePowerBonus,
    Monster,
    Name,
    Player,
    Position,
    ProvidesHealing,
    Ranged,
    Renderable,
    SerializationHelper,
    SerializeMe,
    SuffersDamage,
    WantsToDropItem,
    WantsToMelee,
    WantsToPickUpItem,
    WantsToUnequipItem,
    WantsToUseItem,
    FOV,
};
use crate::entity::{Entities, Entity};
use crate::storage::laid_over;

verus! {

/// How entity references are rewritten: per slot, the generation that a
/// reference to the slot must carry, and what such a reference becomes.
pub type RefTable = Vec<Option<(u64, Entity)>>;

/// A reference that names nothing: no store has a slot of this number.
pub open spec fn dangling() -> Entity {
    Entity { id: usize::MAX, generation: 0 }
}

/// The reference that names nothing is never alive.
pub proof fn lemma_dangling_is_never_alive(entities: &Entities)
    ensures
        !entities.is_alive(dangling()),
{
    assert(entities.alive.len() <= usize::MAX);
}

/// What the reference `e` becomes under `table`: the image of its slot if
/// the table has one for the generation of `e`, and a reference that names
/// nothing otherwise.
pub open spec fn image(table: Seq<Option<(u64, Entity)>>, e: Entity) -> Entity {
    if e.id < table.len() {
        match table[e.id as int] {
            Some((generation, to)) if generation == e.generation => to,
            _ => dangling(),
        }
    } else {
        dangling()
    }
}

/// What the reference `e` becomes under `table`.
pub fn image_of(table: &RefTable, e: Entity) -> (r: Entity)
    ensures
        r == image(table@, e),
{
    if e.id < table.len() {
        match table[e.id] {
            Some((generation, to)) => if generation == e.generation {
                to
            } else {
                Entity { id: usize::MAX, generation: 0 }
            },
            None => Entity { id: usize::MAX, generation: 0 },
        }
    } else {
        Entity { id: usize::MAX, generation: 0 }
    }
}

/// `c` with its references rewritten under `table`.
pub open spec fn rewired_wants_to_melee(
    c: Option<WantsToMelee>,
    table: Seq<Option<(u64, Entity)>>,
) -> Option<WantsToMelee> {
    match c {
        Some(v) => Some(WantsToMelee { target: image(table, v.target), ..v }),
        None => None,
    }
}

fn rewire_wants_to_melee(c: Option<WantsToMelee>, table: &RefTable) -> (r: Option<WantsToMelee>)
    ensures
        r == rewired_wants_to_melee(c, table@),
{
    match c {
        Some(v) => Some(WantsToMelee { target: image_of(table, v.target), ..v }),
        None => None,
    }
}

/// `c` with its references rewritten under `table`.
pub open spec fn rewired_in_backpack(
    c: Option<InBackpack>,
    table: Seq<Option<(u64, Entity)>>,
) -> Option<InBackpack> {
    match c {
        Some(v) => Some(InBackpack { owner: image(table, v.owner), ..v }),
        None => None,
    }
}

fn rewire_in_backpack(c: Option<InBackpack>, table: &RefTable) -> (r: Option<InBackpack>)
    ensures
        r == rewired_in_backpack(c, table@),
{
    match c {
        Some(v) => Some(InBackpack { owner: image_of(table, v.owner), ..v }),
        None => None,
    }
}

/// `c` with its references rewritten under `table`.
pub open spec fn rewired_wants_to_pickup_item(
    c: Option<WantsToPickUpItem>,
    table: Seq<Option<(u64, Entity)>>,
) -> Option<WantsToPickUpItem> {
    match c {
        Some(v) => Some(
            WantsToPickUpItem {
                collected_by: image(table, v.collected_by),
                item: image(table, v.item),
                ..v
            },
        ),
        None => None,
    }
}

fn rewire_wants_to_pickup_item(c: Option<WantsToPickUpItem>, table: &RefTable) -> (r: Option<
    WantsToPickUpItem,
>)
    ensures
        r == rewired_wants_to_pickup_item(c, table@),
{
    match c {
        Some(v) => Some(
            WantsToPickUpItem {
                collected_by: image_of(table, v.collected_by),
                item: image_of(table, v.item),
                ..v
            },
        ),
        None => None,
    }
}

/// `c` with its references rewritten under `table`.
pub open spec fn rewired_wants_to_use_item(
    c: Option<WantsToUseItem>,
    table: Seq<Option<(u64, Entity)>>,
) -> Option<WantsToUseItem> {
    match c {
        Some(v) => Some(WantsToUseItem { item: image(table, v.item), ..v }),
        None => None,
    }
}

fn rewire_wants_to_use_item(c: Option<WantsToUseItem>, table: &RefTable) -> (r: Option<
    WantsToUseItem,
>)
    ensures
        r == rewired_wants_to_use_item(c, table@),
{
    match c {
        Some(v) => Some(WantsToUseItem { item: image_of(table, v.item), ..v }),
        None => None,
    }
}

/// `c` with its references rewritten under `table`.
pub open spec fn rewired_wants_to_drop_item(
    c: Option<WantsToDropItem>,
    table: Seq<Option<(u64, Entity)>>,
) -> Option<WantsToDropItem> {
    match c {
        Some(v) => Some(WantsToDropItem { item: image(table, v.item), ..v }),
        None => None,
    }
}

fn rewire_wants_to_drop_item(c: Option<WantsToDropItem>, table: &RefTable) -> (r: Option<
    WantsToDropItem,
>)
    ensures
        r == rewired_wants_to_drop_item(c, table@),
{
    match c {
        Some(v) => Some(WantsToDropItem { item: image_of(table, v.item), ..v }),
        None => None,
    }
}

/// `c` with its references rewritten under `table`.
pub open spec fn rewired_wants_to_unequip_item(
    c: Option<WantsToUnequipItem>,
    table: Seq<Option<(u64, Entity)>>,
) -> Option<WantsToUnequipItem> {
    match c {
        Some(v) => Some(WantsToUnequipItem { item: image(table, v.item), ..v }),
        None => None,
    }
}

fn rewire_wants_to_unequip_item(c: Option<WantsToUnequipItem>, table: &RefTable) -> (r: Option<
    WantsToUnequipItem,
>)
    ensures
        r == rewired_wants_to_unequip_item(c, table@),
{
    match c {
        Some(v) => Some(WantsToUnequipItem { item: image_of(table, v.item), ..v }),
        None => None,
    }
}

/// `c` with its references rewritten under `table`.
pub open spec fn rewired_equipped(
    c: Option<Equipped>,
    table: Seq<Option<(u64, Entity)>>,
) -> Option<Equipped> {
    match c {
        Some(v) => Some(Equipped { owner: image(table, v.owner), ..v }),
        None => None,
    }
}

fn rewire_equipped(c: Option<Equipped>, table: &RefTable) -> (r: Option<Equipped>)
    ensures
        r == rewired_equipped(c, table@),
{
    match c {
        Some(v) => Some(Equipped { owner: image_of(table, v.owner), ..v }),
        None => None,
    }
}

/// Both are absent, or both are present and alike.
pub open spec fn alike_fov(a: Option<FOV>, b: Option<FOV>) -> bool {
    match (a, b) {
        (Some(x), Some(y)) => x.alike(&y),
        (None, None) => true,
        _ => false,
    }
}

fn copy_opt_fov(c: &Option<FOV>) -> (r: Option<FOV>)
    ensures
        alike_fov(r, *c),
{
    match c {
        Some(v) => Some(v.copy()),
        None => None,
    }
}

/// Both are absent, or both are present and alike.
pub open spec fn alike_name(a: Option<Name>, b: Option<Name>) -> bool {
    match (a, b) {
        (Some(x), Some(y)) => x.alike(&y),
        (None, None) => true,
        _ => false,
    }
}

fn copy_opt_name(c: &Option<Name>) -> (r: Option<Name>)
    ensures
        alike_name(r, *c),
{
    match c {
        Some(v) => Some(v.copy()),
        None => None,
    }
}

/// Both are absent, or both are present and alike.
pub open spec fn alike_suffers_damage(a: Option<SuffersDamage>, b: Option<SuffersDamage>) -> bool {
    match (a, b) {
        (Some(x), Some(y)) => x.alike(&y),
        (None, None) => true,
        _ => false,
    }
}

fn copy_opt_suffers_damage(c: &Option<SuffersDamage>) -> (r: Option<SuffersDamage>)
    ensures
        alike_suffers_damage(r, *c),
{
    match c {
        Some(v) => Some(v.copy()),
        None => None,
    }
}

/// Both are absent, or both are present and alike.
pub open spec fn alike_serialization_helper(
    a: Option<SerializationHelper>,
    b: Option<SerializationHelper>,
) -> bool {
    match (a, b) {
        (Some(x), Some(y)) => x.alike(&y),
        (None, None) => true,
        _ => false,
    }
}

fn copy_opt_serialization_helper(c: &Option<SerializationHelper>) -> (r: Option<
    SerializationHelper,
>)
    ensures
        alike_serialization_helper(r, *c),
{
    match c {
        Some(v) => Some(v.copy()),
        None => None,
    }
}

/// Everything one entity can carry: one optional component of each kind.
pub struct Outfit {
    pub position: Option<Position>,
    pub renderable: Option<Renderable>,
    pub player: Option<Player>,
    pub fov: Option<FOV>,
    pub monster: Option<Monster>,
    pub name: Option<Name>,
    pub blocks_tile: Option<BlocksTile>,
    pub combat_stats: Option<CombatStats>,
    pub wants_to_melee: Option<WantsToMelee>,
    pub suffers_damage: Option<SuffersDamage>,
    pub item: Option<Item>,
    pub provides_healing: Option<ProvidesHealing>,
    pub in_backpack: Option<InBackpack>,
    pub wants_to_pickup_item: Option<WantsToPickUpItem>,
    pub wants_to_use_item: Option<WantsToUseItem>,
    pub wants_to_drop_item: Option<WantsToDropItem>,
    pub wants_to_unequip_item: Option<WantsToUnequipItem>,
    pub consumable: Option<Consumable>,
    pub ranged: Option<Ranged>,
    pub inflicts_damage: Option<InflictsDamage>,
    pub area_of_effect: Option<AreaOfEffect>,
    pub causes_confusion: Option<CausesConfusion>,
    pub is_confused: Option<IsConfused>,
    pub gives_movement_speed: Option<GivesMovementSpeed>,
    pub has_movement_speed_modifier: Option<HasMovementSpeedModifier>,
    pub equippable: Option<Equippable>,
    pub equipped: Option<Equipped>,
    pub melee_power_bonus: Option<MeleePowerBonus>,
    pub defense_bonus: Option<DefenseBonus>,
    pub serialize_me: Option<SerializeMe>,
    pub serialization_helper: Option<SerializationHelper>,
}

impl Outfit {
    /// The outfit without any component.
    pub open spec fn bare() -> Outfit {
        Outfit {
            position: None,
            renderable: None,
            player: None,
            fov: None,
            monster: None,
            name: None,
            blocks_tile: None,
            combat_stats: None,
            wants_to_melee: None,
            suffers_damage: None,
            item: None,
            provides_healing: None,
            in_backpack: None,
            wants_to_pickup_item: None,
            wants_to_use_item: None,
            wants_to_drop_item: None,
            wants_to_unequip_item: None,
            consumable: None,
            ranged: None,
            inflicts_damage: None,
            area_of_effect: None,
            causes_confusion: None,
            is_confused: None,
            gives_movement_speed: None,
            has_movement_speed_modifier: None,
            equippable: None,
            equipped: None,
            melee_power_bonus: None,
            defense_bonus: None,
            serialize_me: None,
            serialization_helper: None,
        }
    }

    /// The outfit without any component.
    pub fn none() -> (r: Outfit)
        ensures
            r == Outfit::bare(),
    {
        Outfit {
            position: None,
            renderable: None,
            player: None,
            fov: None,
            monster: None,
            name: None,
            blocks_tile: None,
            combat_stats: None,
            wants_to_melee: None,
            suffers_damage: None,
            item: None,
            provides_healing: None,
            in_backpack: None,
            wants_to_pickup_item: None,
            wants_to_use_item: None,
            wants_to_drop_item: None,
            wants_to_unequip_item: None,
            consumable: None,
            ranged: None,
            inflicts_damage: None,
            area_of_effect: None,
            causes_confusion: None,
            is_confused: None,
            gives_movement_speed: None,
            has_movement_speed_modifier: None,
            equippable: None,
            equipped: None,
            melee_power_bonus: None,
            defense_bonus: None,
            serialize_me: None,
            serialization_helper: None,
        }
    }

    /// `self` laid over `under`: each component of `self`, and where `self`
    /// has none, that of `under`.
    pub open spec fn over(&self, under: &Outfit) -> Outfit {
        Outfit {
            position: laid_over(self.position, under.position),
            renderable: laid_over(self.renderable, under.renderable),
            player: laid_over(self.player, under.player),
            fov: laid_over(self.fov, under.fov),
            monster: laid_over(self.monster, under.monster),
            name: laid_over(self.name, under.name),
            blocks_tile: laid_over(self.blocks_tile, under.blocks_tile),
            combat_stats: laid_over(self.combat_stats, under.combat_stats),
            wants_to_melee: laid_over(self.wants_to_melee, under.wants_to_melee),
            suffers_damage: laid_over(self.suffers_damage, under.suffers_damage),
            item: laid_over(self.item, under.item),
            provides_healing: laid_over(self.provides_healing, under.provides_healing),
            in_backpack: laid_over(self.in_backpack, under.in_backpack),
            wants_to_pickup_item: laid_over(self.wants_to_pickup_item, under.wants_to_pickup_item),
            wants_to_use_item: laid_over(self.wants_to_use_item, under.wants_to_use_item),
            wants_to_drop_item: laid_over(self.wants_to_drop_item, under.wants_to_drop_item),
            wants_to_unequip_item: laid_over(self.wants_to_unequip_item,
                under.wants_to_unequip_item),
            consumable: laid_over(self.consumable, under.consumable),
            ranged: laid_over(self.ranged, under.ranged),
            inflicts_damage: laid_over(self.inflicts_damage, under.inflicts_damage),
            area_of_effect: laid_over(self.area_of_effect, under.area_of_effect),
            causes_confusion: laid_over(self.causes_confusion, under.causes_confusion),
            is_confused: laid_over(self.is_confused, under.is_confused),
            gives_movement_speed: laid_over(self.gives_movement_speed, under.gives_movement_speed),
            has_movement_speed_modifier: laid_over(self.has_movement_speed_modifier,
                under.has_movement_speed_modifier),
            equippable: laid_over(self.equippable, under.equippable),
            equipped: laid_over(self.equipped, under.equipped),
            melee_power_bonus: laid_over(self.melee_power_bonus, under.melee_power_bonus),
            defense_bonus: laid_over(self.defense_bonus, under.defense_bonus),
            serialize_me: laid_over(self.serialize_me, under.serialize_me),
            serialization_helper: laid_over(self.serialization_helper, under.serialization_helper),
        }
    }

    /// An outfit laid over the bare outfit is itself.
    pub proof fn lemma_over_bare(&self)
        ensures
            self.over(&Outfit::bare()) == *self,
    {
    }

    /// The two outfits hold the same components; those that hold a list or
    /// a text are compared by what they hold.
    pub open spec fn alike(&self, other: &Outfit) -> bool {
        &&& self.position == other.position
        &&& self.renderable == other.renderable
        &&& self.player == other.player
        &&& alike_fov(self.fov, other.fov)
        &&& self.monster == other.monster
        &&& alike_name(self.name, other.name)
        &&& self.blocks_tile == other.blocks_tile
        &&& self.combat_stats == other.combat_stats
        &&& self.wants_to_melee == other.wants_to_melee
        &&& alike_suffers_damage(self.suffers_damage, other.suffers_damage)
        &&& self.item == other.item
        &&& self.provides_healing == other.provides_healing
        &&& self.in_backpack == other.in_backpack
        &&& self.wants_to_pickup_item == other.wants_to_pickup_item
        &&& self.wants_to_use_item == other.wants_to_use_item
        &&& self.wants_to_drop_item == other.wants_to_drop_item
        &&& self.wants_to_unequip_item == other.wants_to_unequip_item
        &&& self.consumable == other.consumable
        &&& self.ranged == other.ranged
        &&& self.inflicts_damage == other.inflicts_damage
        &&& self.area_of_effect == other.area_of_effect
        &&& self.causes_confusion == other.causes_confusion
        &&& self.is_confused == other.is_confused
        &&& self.gives_movement_speed == other.gives_movement_speed
        &&& self.has_movement_speed_modifier == other.has_movement_speed_modifier
        &&& self.equippable == other.equippable
        &&& self.equipped == other.equipped
        &&& self.melee_power_bonus == other.melee_power_bonus
        &&& self.defense_bonus == other.defense_bonus
        &&& self.serialize_me == other.serialize_me
        &&& alike_serialization_helper(self.serialization_helper, other.serialization_helper)
    }

    /// A copy of the outfit.
    pub fn copy(&self) -> (r: Outfit)
        ensures
            r.alike(self),
    {
        Outfit {
            position: self.position,
            renderable: self.renderable,
            player: self.player,
            fov: copy_opt_fov(&self.fov),
            monster: self.monster,
            name: copy_opt_name(&self.name),
            blocks_tile: self.blocks_tile,
            combat_stats: self.combat_stats,
            wants_to_melee: self.wants_to_melee,
            suffers_damage: copy_opt_suffers_damage(&self.suffers_damage),
            item: self.item,
            provides_healing: self.provides_healing,
            in_backpack: self.in_backpack,
            wants_to_pickup_item: self.wants_to_pickup_item,
            wants_to_use_item: self.wants_to_use_item,
            wants_to_drop_item: self.wants_to_drop_item,
            wants_to_unequip_item: self.wants_to_unequip_item,
            consumable: self.consumable,
            ranged: self.ranged,
            inflicts_damage: self.inflicts_damage,
            area_of_effect: self.area_of_effect,
            causes_confusion: self.causes_confusion,
            is_confused: self.is_confused,
            gives_movement_speed: self.gives_movement_speed,
            has_movement_speed_modifier: self.has_movement_speed_modifier,
            equippable: self.equippable,
            equipped: self.equipped,
            melee_power_bonus: self.melee_power_bonus,
            defense_bonus: self.defense_bonus,
            serialize_me: self.serialize_me,
            serialization_helper: copy_opt_serialization_helper(&self.serialization_helper),
        }
    }

    /// The outfit with every entity reference rewritten under `table`.
    pub open spec fn rewired(&self, table: Seq<Option<(u64, Entity)>>) -> Outfit {
        Outfit {
            wants_to_melee: rewired_wants_to_melee(self.wants_to_melee, table),
            in_backpack: rewired_in_backpack(self.in_backpack, table),
            wants_to_pickup_item: rewired_wants_to_pickup_item(self.wants_to_pickup_item, table),
            wants_to_use_item: rewired_wants_to_use_item(self.wants_to_use_item, table),
            wants_to_drop_item: rewired_wants_to_drop_item(self.wants_to_drop_item, table),
            wants_to_unequip_item: rewired_wants_to_unequip_item(self.wants_to_unequip_item, table),
            equipped: rewired_equipped(self.equipped, table),
            ..*self
        }
    }

    /// The outfit with every entity reference rewritten under `table`.
    pub fn rewire(self, table: &RefTable) -> (r: Outfit)
        ensures
            r == self.rewired(table@),
    {
        Outfit {
            wants_to_melee: rewire_wants_to_melee(self.wants_to_melee, table),
            in_backpack: rewire_in_backpack(self.in_backpack, table),
            wants_to_pickup_item: rewire_wants_to_pickup_item(self.wants_to_pickup_item, table),
            wants_to_use_item: rewire_wants_to_use_item(self.wants_to_use_item, table),
            wants_to_drop_item: rewire_wants_to_drop_item(self.wants_to_drop_item, table),
            wants_to_unequip_item: rewire_wants_to_unequip_item(self.wants_to_unequip_item, table),
            equipped: rewire_equipped(self.equipped, table),
            ..self
        }
    }

    /// Outfits that are alike stay alike when their references are
    /// rewritten.
    pub proof fn lemma_rewired_alike(&self, other: &Outfit, table: Seq<Option<(u64, Entity)>>)
        requires
            self.alike(other),
        ensures
            self.rewired(table).alike(&other.rewired(table)),
    {
    }
}

} // verus!
