//! The world: every entity, every component storage and the singleton
//! resources (map, player, turn phase, log, random source).

use vstd::prelude::*;
use rltk::RandomNumberGenerator;
use crate::components::{
    AreaOfEffect,
    BlocksTile,
    CausesConfusion,
    CombatStats,
    Consumable,
    DefenseBonus,
    Equippable,
    Equipped,
    GivesMovementSpeed,
    GridPoint,
    HasMovementSpeedModifier,
    InBackpack,
    InflictsDamage,
    IsConfused,
    Item,
    MeleePowerBonus,
    Monster,
    Name,
    Player,
    Position,
    ProvidesHealing,
    Ranged,
    Renderable,
    SerializationHelper,
    SerializeMe,
    SuffersDamage,
    WantsToDropItem,
    WantsToMelee,
    WantsToPickUpItem,
    WantsToUnequipItem,
    WantsToUseItem,
    FOV,
};
use crate::entity::{Entities, Entity};
use crate::gamelog::GameLog;
use crate::map::GameMap;
use crate::outfit::{
    alike_fov,
    alike_name,
    alike_serialization_helper,
    alike_suffers_damage,
    Outfit,
};
use crate::state::RunState;
use crate::storage::Storage;

verus! {

/// The name that `names` holds for `e`; `None` where `e` is dead or
/// nameless.
pub open spec fn name_in(entities: &Entities, names: &Storage<Name>, e: Entity) -> Option<String> {
    match names.of(entities, e) {
        Some(n) => Some(n.name),
        None => None,
    }
}

fn copy_fov(storage: &Storage<FOV>, j: usize) -> (r: Option<FOV>)
    ensures
        alike_fov(r, storage.at(j as int)),
{
    match storage.slot(j) {
        Some(c) => Some(c.copy()),
        None => None,
    }
}

fn copy_name(storage: &Storage<Name>, j: usize) -> (r: Option<Name>)
    ensures
        alike_name(r, storage.at(j as int)),
{
    match storage.slot(j) {
        Some(c) => Some(c.copy()),
        None => None,
    }
}

fn copy_suffers_damage(storage: &Storage<SuffersDamage>, j: usize) -> (r: Option<SuffersDamage>)
    ensures
        alike_suffers_damage(r, storage.at(j as int)),
{
    match storage.slot(j) {
        Some(c) => Some(c.copy()),
        None => None,
    }
}

fn copy_serialization_helper(storage: &Storage<SerializationHelper>,
    j: usize) -> (r: Option<SerializationHelper>)
    ensures
        alike_serialization_helper(r, storage.at(j as int)),
{
    match storage.slot(j) {
        Some(c) => Some(c.copy()),
        None => None,
    }
}

pub struct World {
    pub entities: Entities,
    pub positions: Storage<Position>,
    pub renderables: Storage<Renderable>,
    pub players: Storage<Player>,
    pub fovs: Storage<FOV>,
    pub monsters: Storage<Monster>,
    pub names: Storage<Name>,
    pub blocks_tile: Storage<BlocksTile>,
    pub combat_stats: Storage<CombatStats>,
    pub wants_to_melee: Storage<WantsToMelee>,
    pub suffers_damage: Storage<SuffersDamage>,
    pub items: Storage<Item>,
    pub provides_healing: Storage<ProvidesHealing>,
    pub in_backpack: Storage<InBackpack>,
    pub wants_to_pickup_item: Storage<WantsToPickUpItem>,
    pub wants_to_use_item: Storage<WantsToUseItem>,
    pub wants_to_drop_item: Storage<WantsToDropItem>,
    pub wants_to_unequip_item: Storage<WantsToUnequipItem>,
    pub consumables: Storage<Consumable>,
    pub ranged: Storage<Ranged>,
    pub inflicts_damage: Storage<InflictsDamage>,
    pub area_of_effect: Storage<AreaOfEffect>,
    pub causes_confusion: Storage<CausesConfusion>,
    pub is_confused: Storage<IsConfused>,
    pub gives_movement_speed: Storage<GivesMovementSpeed>,
    pub has_movement_speed_modifier: Storage<HasMovementSpeedModifier>,
    pub equippable: Storage<Equippable>,
    pub equipped: Storage<Equipped>,
    pub melee_power_bonus: Storage<MeleePowerBonus>,
    pub defense_bonus: Storage<DefenseBonus>,
    pub serialize_me: Storage<SerializeMe>,
    pub serialization_helper: Storage<SerializationHelper>,
    /// The current dungeon level.
    pub map: GameMap,
    /// Where the player was last known to stand.
    pub player_position: GridPoint,
    /// The entity the user controls.
    pub player_entity: Entity,
    /// The phase the turn controller is in.
    pub run_state: RunState,
    pub gamelog: GameLog,
    pub rng: RandomNumberGenerator,
}

impl World {
    /// Components sit on live entities only.
    pub open spec fn storages_within(&self) -> bool {
        &&& self.positions.within(&self.entities)
        &&& self.renderables.within(&self.entities)
        &&& self.players.within(&self.entities)
        &&& self.fovs.within(&self.entities)
        &&& self.monsters.within(&self.entities)
        &&& self.names.within(&self.entities)
        &&& self.blocks_tile.within(&self.entities)
        &&& self.combat_stats.within(&self.entities)
        &&& self.wants_to_melee.within(&self.entities)
        &&& self.suffers_damage.within(&self.entities)
        &&& self.items.within(&self.entities)
        &&& self.provides_healing.within(&self.entities)
        &&& self.in_backpack.within(&self.entities)
        &&& self.wants_to_pickup_item.within(&self.entities)
        &&& self.wants_to_use_item.within(&self.entities)
        &&& self.wants_to_drop_item.within(&self.entities)
        &&& self.wants_to_unequip_item.within(&self.entities)
        &&& self.consumables.within(&self.entities)
        &&& self.ranged.within(&self.entities)
        &&& self.inflicts_damage.within(&self.entities)
        &&& self.area_of_effect.within(&self.entities)
        &&& self.causes_confusion.within(&self.entities)
        &&& self.is_confused.within(&self.entities)
        &&& self.gives_movement_speed.within(&self.entities)
        &&& self.has_movement_speed_modifier.within(&self.entities)
        &&& self.equippable.within(&self.entities)
        &&& self.equipped.within(&self.entities)
        &&& self.melee_power_bonus.within(&self.entities)
        &&& self.defense_bonus.within(&self.entities)
        &&& self.serialize_me.within(&self.entities)
        &&& self.serialization_helper.within(&self.entities)
    }

    /// The entity store and the map are well formed, and components sit on
    /// live entities only.
    pub open spec fn wf(&self) -> bool {
        self.entities.wf() && self.map.wf() && self.storages_within()
    }

    /// Whether the world is well formed.
    pub fn is_well_formed(&self) -> (r: bool)
        ensures
            r == self.wf(),
    {
        if !self.entities.is_well_formed() || !self.map.is_well_formed() {
            return false;
        }
        let mut ok: bool = true;
        ok = ok && self.positions.is_within(&self.entities);
        ok = ok && self.renderables.is_within(&self.entities);
        ok = ok && self.players.is_within(&self.entities);
        ok = ok && self.fovs.is_within(&self.entities);
        ok = ok && self.monsters.is_within(&self.entities);
        ok = ok && self.names.is_within(&self.entities);
        ok = ok && self.blocks_tile.is_within(&self.entities);
        ok = ok && self.combat_stats.is_within(&self.entities);
        ok = ok && self.wants_to_melee.is_within(&self.entities);
        ok = ok && self.suffers_damage.is_within(&self.entities);
        ok = ok && self.items.is_within(&self.entities);
        ok = ok && self.provides_healing.is_within(&self.entities);
        ok = ok && self.in_backpack.is_within(&self.entities);
        ok = ok && self.wants_to_pickup_item.is_within(&self.entities);
        ok = ok && self.wants_to_use_item.is_within(&self.entities);
        ok = ok && self.wants_to_drop_item.is_within(&self.entities);
        ok = ok && self.wants_to_unequip_item.is_within(&self.entities);
        ok = ok && self.consumables.is_within(&self.entities);
        ok = ok && self.ranged.is_within(&self.entities);
        ok = ok && self.inflicts_damage.is_within(&self.entities);
        ok = ok && self.area_of_effect.is_within(&self.entities);
        ok = ok && self.causes_confusion.is_within(&self.entities);
        ok = ok && self.is_confused.is_within(&self.entities);
        ok = ok && self.gives_movement_speed.is_within(&self.entities);
        ok = ok && self.has_movement_speed_modifier.is_within(&self.entities);
        ok = ok && self.equippable.is_within(&self.entities);
        ok = ok && self.equipped.is_within(&self.entities);
        ok = ok && self.melee_power_bonus.is_within(&self.entities);
        ok = ok && self.defense_bonus.is_within(&self.entities);
        ok = ok && self.serialize_me.is_within(&self.entities);
        ok = ok && self.serialization_helper.is_within(&self.entities);
        ok
    }

    /// A world without entities around `map`, in the phase `PreRun`, with
    /// the greeting in its log.
    pub fn new(map: GameMap, rng: RandomNumberGenerator) -> (w: World)
        requires
            map.wf(),
        ensures
            w.wf(),
            w.entities.count() == 0,
            w.map == map,
            w.rng == rng,
            w.run_state == RunState::PreRun,
            w.player_position == (GridPoint { x: 0, y: 0 }),
            !w.entities.is_alive(w.player_entity),
            w.gamelog.entries@ == seq![crate::gamelog::LogEntry::Welcome],
            forall|i: int| w.slot_is_bare(i),
    {
        World {
            entities: Entities::new(),
            positions: Storage::new(),
            renderables: Storage::new(),
            players: Storage::new(),
            fovs: Storage::new(),
            monsters: Storage::new(),
            names: Storage::new(),
            blocks_tile: Storage::new(),
            combat_stats: Storage::new(),
            wants_to_melee: Storage::new(),
            suffers_damage: Storage::new(),
            items: Storage::new(),
            provides_healing: Storage::new(),
            in_backpack: Storage::new(),
            wants_to_pickup_item: Storage::new(),
            wants_to_use_item: Storage::new(),
            wants_to_drop_item: Storage::new(),
            wants_to_unequip_item: Storage::new(),
            consumables: Storage::new(),
            ranged: Storage::new(),
            inflicts_damage: Storage::new(),
            area_of_effect: Storage::new(),
            causes_confusion: Storage::new(),
            is_confused: Storage::new(),
            gives_movement_speed: Storage::new(),
            has_movement_speed_modifier: Storage::new(),
            equippable: Storage::new(),
            equipped: Storage::new(),
            melee_power_bonus: Storage::new(),
            defense_bonus: Storage::new(),
            serialize_me: Storage::new(),
            serialization_helper: Storage::new(),
            map,
            player_position: GridPoint { x: 0, y: 0 },
            player_entity: Entity { id: 0, generation: 0 },
            run_state: RunState::PreRun,
            gamelog: GameLog::new(),
            rng,
        }
    }

    /// No storage holds anything in slot `i`.
    pub open spec fn slot_is_bare(&self, i: int) -> bool {
        &&& self.positions.at(i) is None
        &&& self.renderables.at(i) is None
        &&& self.players.at(i) is None
        &&& self.fovs.at(i) is None
        &&& self.monsters.at(i) is None
        &&& self.names.at(i) is None
        &&& self.blocks_tile.at(i) is None
        &&& self.combat_stats.at(i) is None
        &&& self.wants_to_melee.at(i) is None
        &&& self.suffers_damage.at(i) is None
        &&& self.items.at(i) is None
        &&& self.provides_healing.at(i) is None
        &&& self.in_backpack.at(i) is None
        &&& self.wants_to_pickup_item.at(i) is None
        &&& self.wants_to_use_item.at(i) is None
        &&& self.wants_to_drop_item.at(i) is None
        &&& self.wants_to_unequip_item.at(i) is None
        &&& self.consumables.at(i) is None
        &&& self.ranged.at(i) is None
        &&& self.inflicts_damage.at(i) is None
        &&& self.area_of_effect.at(i) is None
        &&& self.causes_confusion.at(i) is None
        &&& self.is_confused.at(i) is None
        &&& self.gives_movement_speed.at(i) is None
        &&& self.has_movement_speed_modifier.at(i) is None
        &&& self.equippable.at(i) is None
        &&& self.equipped.at(i) is None
        &&& self.melee_power_bonus.at(i) is None
        &&& self.defense_bonus.at(i) is None
        &&& self.serialize_me.at(i) is None
        &&& self.serialization_helper.at(i) is None
    }

    /// Every storage holds in slot `j` what it holds in `other`.
    pub open spec fn same_slot(&self, other: &World, j: int) -> bool {
        &&& self.positions.at(j) == other.positions.at(j)
        &&& self.renderables.at(j) == other.renderables.at(j)
        &&& self.players.at(j) == other.players.at(j)
        &&& self.fovs.at(j) == other.fovs.at(j)
        &&& self.monsters.at(j) == other.monsters.at(j)
        &&& self.names.at(j) == other.names.at(j)
        &&& self.blocks_tile.at(j) == other.blocks_tile.at(j)
        &&& self.combat_stats.at(j) == other.combat_stats.at(j)
        &&& self.wants_to_melee.at(j) == other.wants_to_melee.at(j)
        &&& self.suffers_damage.at(j) == other.suffers_damage.at(j)
        &&& self.items.at(j) == other.items.at(j)
        &&& self.provides_healing.at(j) == other.provides_healing.at(j)
        &&& self.in_backpack.at(j) == other.in_backpack.at(j)
        &&& self.wants_to_pickup_item.at(j) == other.wants_to_pickup_item.at(j)
        &&& self.wants_to_use_item.at(j) == other.wants_to_use_item.at(j)
        &&& self.wants_to_drop_item.at(j) == other.wants_to_drop_item.at(j)
        &&& self.wants_to_unequip_item.at(j) == other.wants_to_unequip_item.at(j)
        &&& self.consumables.at(j) == other.consumables.at(j)
        &&& self.ranged.at(j) == other.ranged.at(j)
        &&& self.inflicts_damage.at(j) == other.inflicts_damage.at(j)
        &&& self.area_of_effect.at(j) == other.area_of_effect.at(j)
        &&& self.causes_confusion.at(j) == other.causes_confusion.at(j)
        &&& self.is_confused.at(j) == other.is_confused.at(j)
        &&& self.gives_movement_speed.at(j) == other.gives_movement_speed.at(j)
        &&& self.has_movement_speed_modifier.at(j) == other.has_movement_speed_modifier.at(j)
        &&& self.equippable.at(j) == other.equippable.at(j)
        &&& self.equipped.at(j) == other.equipped.at(j)
        &&& self.melee_power_bonus.at(j) == other.melee_power_bonus.at(j)
        &&& self.defense_bonus.at(j) == other.defense_bonus.at(j)
        &&& self.serialize_me.at(j) == other.serialize_me.at(j)
        &&& self.serialization_helper.at(j) == other.serialization_helper.at(j)
    }

    /// The resources of `self` are those of `other`.
    pub open spec fn same_resources(&self, other: &World) -> bool {
        &&& self.map == other.map
        &&& self.player_position == other.player_position
        &&& self.player_entity == other.player_entity
        &&& self.run_state == other.run_state
        &&& self.gamelog == other.gamelog
        &&& self.rng == other.rng
    }

    /// What the entity of slot `i` carries.
    pub open spec fn outfit_at(&self, i: int) -> Outfit {
        Outfit {
            position: self.positions.at(i),
            renderable: self.renderables.at(i),
            player: self.players.at(i),
            fov: self.fovs.at(i),
            monster: self.monsters.at(i),
            name: self.names.at(i),
            blocks_tile: self.blocks_tile.at(i),
            combat_stats: self.combat_stats.at(i),
            wants_to_melee: self.wants_to_melee.at(i),
            suffers_damage: self.suffers_damage.at(i),
            item: self.items.at(i),
            provides_healing: self.provides_healing.at(i),
            in_backpack: self.in_backpack.at(i),
            wants_to_pickup_item: self.wants_to_pickup_item.at(i),
            wants_to_use_item: self.wants_to_use_item.at(i),
            wants_to_drop_item: self.wants_to_drop_item.at(i),
            wants_to_unequip_item: self.wants_to_unequip_item.at(i),
            consumable: self.consumables.at(i),
            ranged: self.ranged.at(i),
            inflicts_damage: self.inflicts_damage.at(i),
            area_of_effect: self.area_of_effect.at(i),
            causes_confusion: self.causes_confusion.at(i),
            is_confused: self.is_confused.at(i),
            gives_movement_speed: self.gives_movement_speed.at(i),
            has_movement_speed_modifier: self.has_movement_speed_modifier.at(i),
            equippable: self.equippable.at(i),
            equipped: self.equipped.at(i),
            melee_power_bonus: self.melee_power_bonus.at(i),
            defense_bonus: self.defense_bonus.at(i),
            serialize_me: self.serialize_me.at(i),
            serialization_helper: self.serialization_helper.at(i),
        }
    }

    /// A copy of what the entity of slot `j` carries.
    pub fn outfit(&self, j: usize) -> (r: Outfit)
        ensures
            r.alike(&self.outfit_at(j as int)),
    {
        Outfit {
            position: self.positions.copied(j),
            renderable: self.renderables.copied(j),
            player: self.players.copied(j),
            fov: copy_fov(&self.fovs, j),
            monster: self.monsters.copied(j),
            name: copy_name(&self.names, j),
            blocks_tile: self.blocks_tile.copied(j),
            combat_stats: self.combat_stats.copied(j),
            wants_to_melee: self.wants_to_melee.copied(j),
            suffers_damage: copy_suffers_damage(&self.suffers_damage, j),
            item: self.items.copied(j),
            provides_healing: self.provides_healing.copied(j),
            in_backpack: self.in_backpack.copied(j),
            wants_to_pickup_item: self.wants_to_pickup_item.copied(j),
            wants_to_use_item: self.wants_to_use_item.copied(j),
            wants_to_drop_item: self.wants_to_drop_item.copied(j),
            wants_to_unequip_item: self.wants_to_unequip_item.copied(j),
            consumable: self.consumables.copied(j),
            ranged: self.ranged.copied(j),
            inflicts_damage: self.inflicts_damage.copied(j),
            area_of_effect: self.area_of_effect.copied(j),
            causes_confusion: self.causes_confusion.copied(j),
            is_confused: self.is_confused.copied(j),
            gives_movement_speed: self.gives_movement_speed.copied(j),
            has_movement_speed_modifier: self.has_movement_speed_modifier.copied(j),
            equippable: self.equippable.copied(j),
            equipped: self.equipped.copied(j),
            melee_power_bonus: self.melee_power_bonus.copied(j),
            defense_bonus: self.defense_bonus.copied(j),
            serialize_me: self.serialize_me.copied(j),
            serialization_helper: copy_serialization_helper(&self.serialization_helper, j),
        }
    }

    /// The name of `e`; `None` where `e` is dead or nameless.
    pub open spec fn name_of(&self, e: Entity) -> Option<String> {
        name_in(&self.entities, &self.names, e)
    }

    /// `e` is the live entity the user controls.
    pub open spec fn is_player(&self, e: Entity) -> bool {
        e == self.player_entity
    }

    /// The name of `e`, for the log.
    pub fn name(&self, e: Entity) -> (r: Option<String>)
        requires
            self.wf(),
        ensures
            r == self.name_of(e),
    {
        match self.names.get(&self.entities, e) {
            Some(n) => Some(n.name.clone()),
            None => None,
        }
    }

    /// Allocates an entity without components.
    pub fn create_entity(&mut self) -> (e: Entity)
        requires
            old(self).wf(),
        ensures
            final(self).wf(),
            *final(self) == (World { entities: final(self).entities, ..*old(self) }),
            old(self).entities.is_creation(&final(self).entities, e),
            final(self).entities.is_alive(e),
            !old(self).entities.slot_alive(e.id as int),
            final(self).slot_is_bare(e.id as int),
            old(self).entities.count() <= final(self).entities.count() <= old(self).entities.count(
                ) + 1,
            forall|i: int|
                i != e.id ==> final(self).entities.slot_alive(i) == old(self).entities.slot_alive(
                    i,
                ),
            forall|x: Entity|
                x.id != e.id ==> final(self).entities.is_alive(x) == old(self).entities.is_alive(
                    x,
                ),
            forall|i: int|
                0 <= i < old(self).entities.count() && i != e.id
                    ==> final(self).entities.generations@[i] == old(self).entities.generations@[i],
            e.id < old(self).entities.count()
                ==> e.generation > old(self).entities.generations@[e.id as int],
    {
        self.entities.create()
    }

    /// `self` is `before` with `outfit` put on the entity of slot `i`: the
    /// components that `outfit` holds replace what the slot held, and
    /// nothing else changed.
    pub open spec fn is_dressing_of(&self, before: &World, i: int, outfit: &Outfit) -> bool {
        &&& self.entities == before.entities
        &&& self.same_resources(before)
        &&& self.outfit_at(i) == outfit.over(&before.outfit_at(i))
        &&& forall|j: int| j != i ==> #[trigger] self.same_slot(before, j)
    }

    /// Puts the components of `outfit` on `e`, in place of what `e` had of
    /// these kinds. A dead `e` gets nothing.
    pub fn dress(&mut self, e: Entity, outfit: Outfit) -> (r: bool)
        requires
            old(self).wf(),
        ensures
            final(self).wf(),
            r == old(self).entities.is_alive(e),
            !r ==> *final(self) == *old(self),
            r ==> final(self).is_dressing_of(old(self), e.id as int, &outfit),
    {
        if !self.entities.is_entity_alive(e) {
            return false;
        }
        self.positions.put(e.id, outfit.position);
        self.renderables.put(e.id, outfit.renderable);
        self.players.put(e.id, outfit.player);
        self.fovs.put(e.id, outfit.fov);
        self.monsters.put(e.id, outfit.monster);
        self.names.put(e.id, outfit.name);
        self.blocks_tile.put(e.id, outfit.blocks_tile);
        self.combat_stats.put(e.id, outfit.combat_stats);
        self.wants_to_melee.put(e.id, outfit.wants_to_melee);
        self.suffers_damage.put(e.id, outfit.suffers_damage);
        self.items.put(e.id, outfit.item);
        self.provides_healing.put(e.id, outfit.provides_healing);
        self.in_backpack.put(e.id, outfit.in_backpack);
        self.wants_to_pickup_item.put(e.id, outfit.wants_to_pickup_item);
        self.wants_to_use_item.put(e.id, outfit.wants_to_use_item);
        self.wants_to_drop_item.put(e.id, outfit.wants_to_drop_item);
        self.wants_to_unequip_item.put(e.id, outfit.wants_to_unequip_item);
        self.consumables.put(e.id, outfit.consumable);
        self.ranged.put(e.id, outfit.ranged);
        self.inflicts_damage.put(e.id, outfit.inflicts_damage);
        self.area_of_effect.put(e.id, outfit.area_of_effect);
        self.causes_confusion.put(e.id, outfit.causes_confusion);
        self.is_confused.put(e.id, outfit.is_confused);
        self.gives_movement_speed.put(e.id, outfit.gives_movement_speed);
        self.has_movement_speed_modifier.put(e.id, outfit.has_movement_speed_modifier);
        self.equippable.put(e.id, outfit.equippable);
        self.equipped.put(e.id, outfit.equipped);
        self.melee_power_bonus.put(e.id, outfit.melee_power_bonus);
        self.defense_bonus.put(e.id, outfit.defense_bonus);
        self.serialize_me.put(e.id, outfit.serialize_me);
        self.serialization_helper.put(e.id, outfit.serialization_helper);
        proof {
            assert forall|j: int| j != e.id implies #[trigger] self.same_slot(old(self), j) by {}
        }
        true
    }

    /// `self` is `before` with the new entity `e` that carries `outfit`:
    /// `e` is alive in a slot that was dead, under a generation the slot
    /// never had, and nothing else changed.
    pub open spec fn is_birth_of(&self, before: &World, e: Entity, outfit: &Outfit) -> bool {
        &&& before.entities.is_creation(&self.entities, e)
        &&& self.entities.is_alive(e)
        &&& !before.entities.slot_alive(e.id as int)
        &&& before.entities.count() <= self.entities.count() <= before.entities.count() + 1
        &&& forall|i: int|
            i != e.id ==> self.entities.slot_alive(i) == before.entities.slot_alive(i)
        &&& forall|x: Entity|
            x.id != e.id ==> self.entities.is_alive(x) == before.entities.is_alive(x)
        &&& forall|i: int|
            0 <= i < before.entities.count() && i != e.id ==> self.entities.generations@[i]
                == before.entities.generations@[i]
        &&& e.id < before.entities.count()
            ==> e.generation > before.entities.generations@[e.id as int]
        &&& self.same_resources(before)
        &&& self.outfit_at(e.id as int) == *outfit
        &&& forall|j: int| j != e.id ==> #[trigger] self.same_slot(before, j)
    }

    /// Creates an entity that carries `outfit`.
    pub fn spawn(&mut self, outfit: Outfit) -> (e: Entity)
        requires
            old(self).wf(),
        ensures
            final(self).wf(),
            final(self).is_birth_of(old(self), e, &outfit),
    {
        let e = self.create_entity();
        let ghost born = *self;
        self.dress(e, outfit);
        proof {
            born.lemma_bare_slot_has_bare_outfit(e.id as int);
            outfit.lemma_over_bare();
            Self::lemma_same_slots_chain(old(self), &born, self, e.id as int);
        }
        e
    }

    /// `self` is `before` without the entity of slot `i`: the slot is dead
    /// and bare, every other slot and every resource is as it was.
    pub open spec fn is_deletion_of(&self, before: &World, i: int) -> bool {
        &&& self.entities.generations@ == before.entities.generations@
        &&& self.entities.count() == before.entities.count()
        &&& !self.entities.slot_alive(i)
        &&& forall|j: int| j != i ==> self.entities.slot_alive(j) == before.entities.slot_alive(j)
        &&& self.slot_is_bare(i)
        &&& forall|j: int| j != i ==> #[trigger] self.same_slot(before, j)
        &&& self.map == before.map
        &&& self.player_position == before.player_position
        &&& self.player_entity == before.player_entity
        &&& self.run_state == before.run_state
        &&& self.gamelog == before.gamelog
        &&& self.rng == before.rng
    }

    /// Deletes `e` with all its components, and says whether it was alive.
    /// A dead `e` leaves the world as it is.
    pub fn delete_entity(&mut self, e: Entity) -> (r: bool)
        requires
            old(self).wf(),
        ensures
            final(self).wf(),
            r == old(self).entities.is_alive(e),
            !r ==> *final(self) == *old(self),
            r ==> final(self).is_deletion_of(old(self), e.id as int),
    {
        if !self.entities.is_entity_alive(e) {
            return false;
        }
        self.entities.kill(e);
        self.positions.unset(e.id);
        self.renderables.unset(e.id);
        self.players.unset(e.id);
        self.fovs.unset(e.id);
        self.monsters.unset(e.id);
        self.names.unset(e.id);
        self.blocks_tile.unset(e.id);
        self.combat_stats.unset(e.id);
        self.wants_to_melee.unset(e.id);
        self.suffers_damage.unset(e.id);
        self.items.unset(e.id);
        self.provides_healing.unset(e.id);
        self.in_backpack.unset(e.id);
        self.wants_to_pickup_item.unset(e.id);
        self.wants_to_use_item.unset(e.id);
        self.wants_to_drop_item.unset(e.id);
        self.wants_to_unequip_item.unset(e.id);
        self.consumables.unset(e.id);
        self.ranged.unset(e.id);
        self.inflicts_damage.unset(e.id);
        self.area_of_effect.unset(e.id);
        self.causes_confusion.unset(e.id);
        self.is_confused.unset(e.id);
        self.gives_movement_speed.unset(e.id);
        self.has_movement_speed_modifier.unset(e.id);
        self.equippable.unset(e.id);
        self.equipped.unset(e.id);
        self.melee_power_bonus.unset(e.id);
        self.defense_bonus.unset(e.id);
        self.serialize_me.unset(e.id);
        self.serialization_helper.unset(e.id);
        proof {
            assert forall|j: int| j != e.id implies #[trigger] self.same_slot(old(self), j) by {}
        }
        true
    }

    /// The slots of the live entities among `list`.
    pub open spec fn slots_of(&self, list: Seq<Entity>) -> Set<int> {
        Set::new(
            |j: int|
                exists|k: int|
                    0 <= k < list.len() && (#[trigger] list[k]).id == j && self.entities.is_alive(
                        list[k],
                    ),
        )
    }

    /// `self` is `before` without the entities of the slots `gone`: those
    /// slots are dead and bare, every other slot and every resource is as it
    /// was.
    pub open spec fn is_without(&self, before: &World, gone: Set<int>) -> bool {
        &&& self.entities.generations@ == before.entities.generations@
        &&& self.entities.count() == before.entities.count()
        &&& forall|j: int|
            #![trigger self.entities.slot_alive(j)]
            #![trigger self.same_slot(before, j)]
            if gone.contains(j) {
                !self.entities.slot_alive(j) && self.slot_is_bare(j)
            } else {
                self.entities.slot_alive(j) == before.entities.slot_alive(j) && self.same_slot(
                    before,
                    j,
                )
            }
        &&& self.map == before.map
        &&& self.player_position == before.player_position
        &&& self.player_entity == before.player_entity
        &&& self.run_state == before.run_state
        &&& self.gamelog == before.gamelog
        &&& self.rng == before.rng
    }

    /// Deletes every live entity of `list` with all its components.
    pub fn delete_entities(&mut self, list: &Vec<Entity>)
        requires
            old(self).wf(),
        ensures
            final(self).wf(),
            final(self).is_without(old(self), old(self).slots_of(list@)),
    {
        let mut k: usize = 0;
        while k < list.len()
            invariant
                self.wf(),
                k <= list@.len(),
                self.is_without(old(self), old(self).slots_of(list@.subrange(0, k as int))),
            decreases list@.len() - k,
        {
            let ghost before = *self;
            let ghost done = old(self).slots_of(list@.subrange(0, k as int));
            let ghost next = old(self).slots_of(list@.subrange(0, k as int + 1));
            let e = list[k];
            let was = self.delete_entity(e);
            proof {
                let head = list@.subrange(0, k as int);
                let longer = list@.subrange(0, k as int + 1);
                assert(longer[k as int] == e);
                assert forall|j: int| #[trigger] next.contains(j) == (done.contains(j) || (j == e.id
                    && old(self).entities.is_alive(e))) by {
                    if done.contains(j) {
                        let q = choose|q: int|
                            0 <= q < head.len() && (#[trigger] head[q]).id == j
                                && old(self).entities.is_alive(head[q]);
                        assert(longer[q] == head[q]);
                    }
                    if next.contains(j) {
                        let q = choose|q: int|
                            0 <= q < longer.len() && (#[trigger] longer[q]).id == j
                                && old(self).entities.is_alive(longer[q]);
                        if q < k {
                            assert(head[q] == longer[q]);
                        }
                    }
                }
                assert forall|j: int|
                    #![trigger self.entities.slot_alive(j)]
                    #![trigger self.same_slot(old(self), j)]
                    if next.contains(j) {
                        !self.entities.slot_alive(j) && self.slot_is_bare(j)
                    } else {
                        self.entities.slot_alive(j) == old(self).entities.slot_alive(j)
                            && self.same_slot(old(self), j)
                    } by {
                    assert(before.same_slot(old(self), j) || done.contains(j));
                    if was {
                        if j != e.id {
                            assert(self.same_slot(&before, j));
                        }
                    }
                }
            }
            k += 1;
        }
        proof {
            assert(list@.subrange(0, list@.len() as int) == list@);
        }
    }

    /// No entity is alive and no slot holds a component.
    pub open spec fn is_empty(&self) -> bool {
        &&& forall|j: int| !#[trigger] self.entities.slot_alive(j)
        &&& forall|j: int| #[trigger] self.slot_is_bare(j)
    }

    /// Deletes every entity. The resources stay.
    pub fn clear_entities(&mut self)
        requires
            old(self).wf(),
        ensures
            final(self).wf(),
            final(self).is_empty(),
            final(self).same_resources(old(self)),
            final(self).entities.generations@ == old(self).entities.generations@,
    {
        let n: usize = self.entities.len();
        let mut j: usize = 0;
        while j < n
            invariant
                self.wf(),
                self.same_resources(old(self)),
                self.entities.generations@ == old(self).entities.generations@,
                n == self.entities.count(),
                j <= n,
                forall|q: int| 0 <= q < j ==> !#[trigger] self.entities.slot_alive(q),
                forall|q: int| 0 <= q < j ==> #[trigger] self.slot_is_bare(q),
            decreases n - j,
        {
            let ghost before = *self;
            if self.entities.slot_is_alive(j) {
                let e = self.entities.entity(j);
                self.delete_entity(e);
                proof {
                    assert forall|q: int| 0 <= q < j + 1
                        implies #[trigger] self.slot_is_bare(q) by {
                        if q < j {
                            assert(before.slot_is_bare(q));
                            assert(self.same_slot(&before, q));
                        }
                    }
                }
            } else {
                proof {
                    self.lemma_dead_slot_is_bare(j as int);
                }
            }
            j += 1;
        }
        proof {
            assert forall|q: int| #[trigger] self.slot_is_bare(q) by {
                if !(0 <= q < n) {
                    self.lemma_dead_slot_is_bare(q);
                }
            }
        }
    }

    /// A slot without a live entity holds no component.
    pub proof fn lemma_dead_slot_is_bare(&self, j: int)
        requires
            self.wf(),
            !self.entities.slot_alive(j),
        ensures
            self.slot_is_bare(j),
    {
    }

    pub proof fn lemma_bare_slot_has_bare_outfit(&self, i: int)
        requires
            self.slot_is_bare(i),
        ensures
            self.outfit_at(i) == Outfit::bare(),
    {
    }

    /// Slots that hold the same in two worlds carry the same outfit.
    pub proof fn lemma_same_slot_same_outfit(&self, other: &World, j: int)
        requires
            self.same_slot(other, j),
        ensures
            self.outfit_at(j) == other.outfit_at(j),
    {
    }

    proof fn lemma_same_slots_chain(first: &World, second: &World, third: &World, i: int)
        requires
            *second == (World { entities: second.entities, ..*first }),
            forall|j: int| j != i ==> #[trigger] third.same_slot(second, j),
        ensures
            forall|j: int| j != i ==> #[trigger] third.same_slot(first, j),
    {
        assert forall|j: int| j != i implies #[trigger] third.same_slot(first, j) by {
            assert(third.same_slot(second, j));
        }
    }
}

} // verus!
