//! The turn controller: the phases of a turn, the passes that a turn runs,
//! and what leads from one phase to the next.

use vstd::prelude::*;
use crate::components::{
    CombatStats,
    GridPoint,
    Position,
    WantsToDropItem,
    WantsToUseItem,
    FOV,
};
use crate::damage_system::{delete_dead_entities, reaped, DamageSystem};
use crate::entity::Entity;
use crate::fov::FovSystem;
use crate::gamelog::LogEntry;
use crate::gui::{ItemMenuResult, MainMenuResult, MainMenuSelection};
use crate::inventory_system::{ItemCollectionSystem, ItemDropSystem, ItemUnequipSystem};
use crate::arith::{clamp, saturate};
use crate::item_use::ItemUseSystem;
use crate::map::GameMap;
use crate::map_indexing_system::MapIndexingSystem;
use crate::melee_combat_system::MeleeCombatSystem;
use crate::monster_ai_system::{MonsterAI, NavigationPath};
use crate::movement_speed_modifier::MovementSpeedModifier;
use crate::player::{commanded, phase_after, player_input, Command};
use crate::rect::half;
use crate::spawner::{populated, spawn_entities_in_room};
use crate::world::World;

verus! {

/// The phase the game is in.
#[derive(PartialEq, Eq, Structural, Clone, Copy, Debug)]
pub enum RunState {
    /// Before the first turn: the world is brought up to date once.
    PreRun,
    AwaitingInput,
    /// The world answers what the player did.
    PlayerTurn,
    /// The hostile actors act.
    MonsterTurn,
    InInventory,
    ShowDropItem,
    ShowTargetting { range: i32, item: Entity },
    MainMenu { menu_selection: MainMenuSelection },
    SaveGame,
    DescendFloor,
    /// The player died. Nothing leads out of this phase.
    GameOver,
}

/// What the front end hands to one tick: what the user did in the phase
/// the game is in.
#[derive(PartialEq, Eq, Structural, Clone, Copy, Debug)]
pub enum Input {
    Nothing,
    /// What the user asked for while the game waited.
    Command(Command),
    /// What the user chose from a list of items.
    ItemMenu(ItemMenuResult, Option<Entity>),
    /// Where the user aimed.
    Targeting(ItemMenuResult, Option<GridPoint>),
    /// What the user did in the main menu.
    MainMenu(MainMenuResult),
}

/// What the front end is to do after a tick.
#[derive(PartialEq, Eq, Structural, Clone, Copy, Debug)]
pub enum Outcome {
    Continue,
    /// Write the game to disk and leave.
    Save,
    /// Read the saved game.
    Load,
    /// Leave.
    Quit,
}

pub struct State {
    pub world: World,
}

/// The entity of slot `j` stays when the player descends: it is a player,
/// or the player carries or wears it.
pub open spec fn stays(w: &World, j: int) -> bool {
    ||| w.players.has(j)
    ||| match w.in_backpack.at(j) {
        Some(b) => b.owner == w.player_entity,
        None => false,
    }
    ||| match w.equipped.at(j) {
        Some(q) => q.owner == w.player_entity,
        None => false,
    }
}

/// The live entities of the first `n` slots that do not stay, lowest slot
/// first.
pub open spec fn leavers(w: &World, n: int) -> Seq<Entity>
    decreases n,
{
    if n <= 0 {
        Seq::empty()
    } else {
        leavers(w, n - 1) + (if w.entities.slot_alive(n - 1) && !stays(w, n - 1) {
            seq![w.entities.entity_at(n - 1)]
        } else {
            Seq::empty()
        })
    }
}

/// The slots of the live entities that do not stay.
pub open spec fn leaver_slots(w: &World) -> Set<int> {
    Set::new(|j: int| w.entities.slot_alive(j) && !stays(w, j))
}

/// The hit points after the rest between two levels: at least half the
/// maximum.
pub open spec fn rested(s: CombatStats) -> CombatStats {
    CombatStats {
        hp: if s.hp >= half(s.max_hp as int) {
            s.hp
        } else {
            half(s.max_hp as int) as i32
        },
        ..s
    }
}

/// `after` is `before` with the player set down at `(x, y)`: its position
/// and the place where it is known to stand are `(x, y)`, its view asks to
/// be brought up to date, it has rested, and the log tells of the descent.
pub open spec fn arrived(before: &World, after: &World, x: i32, y: i32) -> bool {
    let p = before.player_entity;
    let there = before.entities.is_alive(p);
    &&& *after == (World {
        positions: after.positions,
        fovs: after.fovs,
        combat_stats: after.combat_stats,
        gamelog: after.gamelog,
        player_position: after.player_position,
        ..*before
    })
    &&& after.player_position == (GridPoint { x, y })
    &&& after.gamelog.entries@ == before.gamelog.entries@.push(LogEntry::Descended)
    &&& forall|j: int|
        #![trigger after.positions.at(j)]
        #![trigger before.positions.at(j)]
        after.positions.at(j) == (if there && j == p.id && before.positions.at(j) is Some {
            Some(Position { x, y })
        } else {
            before.positions.at(j)
        })
    &&& forall|j: int|
        #![trigger after.fovs.at(j)]
        #![trigger before.fovs.at(j)]
        after.fovs.at(j) == (match before.fovs.at(j) {
            Some(f) if there && j == p.id => Some(FOV { needs_update: true, ..f }),
            other => other,
        })
    &&& forall|j: int|
        #![trigger after.combat_stats.at(j)]
        #![trigger before.combat_stats.at(j)]
        after.combat_stats.at(j) == (match before.combat_stats.at(j) {
            Some(s) if there && j == p.id => Some(rested(s)),
            other => other,
        })
}

/// Link `k` of a descent: the room `k + 1` of the new level is populated.
pub open spec fn room_link(stages: Seq<World>, k: int) -> bool {
    populated(
        &(World { rng: stages[k + 1].rng, ..stages[k] }),
        &stages[k + 1],
        &stages[0].map.rooms@[k + 1],
        stages[0].map.depth,
    )
}

/// `stages` leads from `before` to `after` down one level: what does not
/// belong to the player is deleted and a new level one deeper, generated
/// from the world's random source, takes the place of the old; then every
/// room but the first is populated, one per stage; then the player arrives
/// at the centre of the first room.
pub open spec fn is_descent(before: &World, after: &World, stages: Seq<World>) -> bool {
    let first = stages[0];
    &&& stages.len() == first.map.rooms@.len()
    &&& stages.len() >= 1
    &&& (World { map: before.map, rng: before.rng, ..first }).is_without(
        before,
        leaver_slots(before),
    )
    &&& first.map.width == crate::map::MAP_WIDTH
    &&& first.map.height == crate::map::MAP_HEIGHT
    &&& first.map.wf()
    &&& first.map.dungeon_wf()
    &&& first.map.is_untrodden()
    &&& first.map.depth == clamp(before.map.depth + 1)
    &&& forall|k: int| 0 <= k < stages.len() - 1 ==> #[trigger] room_link(stages, k)
    &&& arrived(
        &stages.last(),
        after,
        first.map.rooms@[0].center_x() as i32,
        first.map.rooms@[0].center_y() as i32,
    )
}

impl State {
    /// `stages` leads from `before` to `after` through the passes of one
    /// turn: visibility, the hostile actors, the spatial index, melee,
    /// damage, picking up, using, dropping, taking off, and the speed tick.
    pub open spec fn is_pipeline<F: Fn(&GameMap, usize, usize) -> NavigationPath>(
        find_path: &F,
        before: &World,
        after: &World,
        stages: Seq<World>,
    ) -> bool {
        &&& stages.len() == 11
        &&& stages[0] == *before
        &&& stages[10] == *after
        &&& FovSystem::ran(&stages[0], &stages[1])
        &&& MonsterAI::ran(find_path, &stages[1], &stages[2])
        &&& MapIndexingSystem::ran(&stages[2], &stages[3])
        &&& MeleeCombatSystem::ran(&stages[3], &stages[4])
        &&& DamageSystem::ran(&stages[4], &stages[5])
        &&& ItemCollectionSystem::ran(&stages[5], &stages[6])
        &&& ItemUseSystem::ran(&stages[6], &stages[7])
        &&& ItemDropSystem::ran(&stages[7], &stages[8])
        &&& ItemUnequipSystem::ran(&stages[8], &stages[9])
        &&& MovementSpeedModifier::ran(&stages[9], &stages[10])
    }

    /// No intent of any kind is left.
    pub open spec fn no_intents(w: &World) -> bool {
        &&& w.wants_to_melee.is_clear()
        &&& w.wants_to_pickup_item.is_clear()
        &&& w.wants_to_use_item.is_clear()
        &&& w.wants_to_drop_item.is_clear()
        &&& w.wants_to_unequip_item.is_clear()
    }

    /// What one turn makes of `before`.
    pub open spec fn turned<F: Fn(&GameMap, usize, usize) -> NavigationPath>(
        find_path: &F,
        before: &World,
        after: &World,
    ) -> bool {
        &&& Self::no_intents(after)
        &&& after.run_state == before.run_state
        &&& after.player_entity == before.player_entity
        &&& exists|stages: Seq<World>| #[trigger] Self::is_pipeline(find_path, before, after,
            stages)
    }

    /// Runs the passes of one turn in their order. No intent outlives the
    /// turn. The search for a way is asked only by the hostile pass.
    pub fn run_systems<F: Fn(&GameMap, usize, usize) -> NavigationPath>(&mut self, find_path: &F)
        requires
            old(self).world.wf(),
            forall|m: &GameMap, a: usize, b: usize|
                m.wf() && a < m.tile_count() && b < m.tile_count() ==> call_requires(
                    find_path,
                    (m, a, b),
                ),
        ensures
            final(self).world.wf(),
            Self::turned(find_path, &old(self).world, &final(self).world),
    {
        let ghost s0 = self.world;
        let mut fov_system = FovSystem {  };
        fov_system.run(&mut self.world);
        let ghost s1 = self.world;
        let mut monster_ai_system = MonsterAI {  };
        monster_ai_system.run(&mut self.world, find_path);
        let ghost s2 = self.world;
        let mut map_indexing_system = MapIndexingSystem {  };
        map_indexing_system.run(&mut self.world);
        let ghost s3 = self.world;
        let mut melee_combat_system = MeleeCombatSystem {  };
        melee_combat_system.run(&mut self.world);
        let ghost s4 = self.world;
        let mut damage_system = DamageSystem {  };
        damage_system.run(&mut self.world);
        let ghost s5 = self.world;
        let mut item_collection_system = ItemCollectionSystem {  };
        item_collection_system.run(&mut self.world);
        let ghost s6 = self.world;
        let mut item_use_system = ItemUseSystem {  };
        item_use_system.run(&mut self.world);
        let ghost s7 = self.world;
        let mut item_drop_system = ItemDropSystem {  };
        item_drop_system.run(&mut self.world);
        let ghost s8 = self.world;
        let mut item_unequip_system = ItemUnequipSystem {  };
        item_unequip_system.run(&mut self.world);
        let ghost s9 = self.world;
        let mut movement_speed_modifier = MovementSpeedModifier {  };
        movement_speed_modifier.run(&mut self.world);
        proof {
            let stages = seq![s0, s1, s2, s3, s4, s5, s6, s7, s8, s9, self.world];
            assert(Self::is_pipeline(find_path, &old(self).world, &self.world, stages));
            assert(s7.wants_to_melee.is_clear()) by {
                assert forall|j: int| #[trigger] s7.wants_to_melee.at(j) is None by {
                    assert(s6.wants_to_melee.at(j) is None);
                }
            }
            assert(s7.wants_to_pickup_item.is_clear()) by {
                assert forall|j: int| #[trigger] s7.wants_to_pickup_item.at(j) is None by {
                    assert(s6.wants_to_pickup_item.at(j) is None);
                }
            }
        }
    }

    /// The entities that do not come along when the player descends: all
    /// but the players and what the player carries or wears.
    pub fn entities_to_remove_on_depth_change(&mut self) -> (r: Vec<Entity>)
        requires
            old(self).world.wf(),
        ensures
            *final(self) == *old(self),
            r@ == leavers(&old(self).world, old(self).world.entities.count()),
            old(self).world.slots_of(r@) == leaver_slots(&old(self).world),
    {
        let mut entities_to_delete: Vec<Entity> = Vec::new();
        let n: usize = self.world.entities.len();
        let player = self.world.player_entity;
        let mut j: usize = 0;
        while j < n
            invariant
                *self == *old(self),
                self.world.wf(),
                player == self.world.player_entity,
                n == self.world.entities.count(),
                j <= n,
                entities_to_delete@ == leavers(&self.world, j as int),
                forall|q: int|
                    0 <= q < entities_to_delete@.len() ==> self.world.entities.is_alive(
                        #[trigger] entities_to_delete@[q],
                    ) && !stays(&self.world, entities_to_delete@[q].id as int),
                forall|c: int|
                    0 <= c < j && self.world.entities.slot_alive(c) && !stays(&self.world, c)
                        ==> exists|q: int|
                        0 <= q < entities_to_delete@.len() && (
                        #[trigger] entities_to_delete@[q]).id == c,
            decreases n - j,
        {
            let ghost listed = entities_to_delete@;
            if self.world.entities.slot_is_alive(j) {
                let mut should_delete: bool = true;
                if self.world.players.has_slot(j) {
                    should_delete = false;
                }
                match self.world.in_backpack.slot(j) {
                    Some(backpack) => {
                        if backpack.owner == player {
                            should_delete = false;
                        }
                    },
                    None => {},
                }
                match self.world.equipped.slot(j) {
                    Some(equip) => {
                        if equip.owner == player {
                            should_delete = false;
                        }
                    },
                    None => {},
                }
                if should_delete {
                    let entity = self.world.entities.entity(j);
                    entities_to_delete.push(entity);
                    proof {
                        assert(entities_to_delete@[listed.len() as int] == entity);
                        assert forall|q: int|
                            0 <= q < entities_to_delete@.len() implies self.world.entities.is_alive(
                            #[trigger] entities_to_delete@[q],
                        ) && !stays(&self.world, entities_to_delete@[q].id as int) by {
                            if q < listed.len() {
                                assert(entities_to_delete@[q] == listed[q]);
                            }
                        }
                    }
                }
            }
            proof {
                assert(entities_to_delete@ =~= leavers(&self.world, j as int + 1));
                assert forall|c: int|
                    0 <= c < j + 1 && self.world.entities.slot_alive(c) && !stays(
                        &self.world,
                        c,
                    ) implies exists|q: int|
                    0 <= q < entities_to_delete@.len() && (#[trigger] entities_to_delete@[q]).id
                        == c by {
                    if c < j {
                        let q = choose|q: int|
                            0 <= q < listed.len() && (#[trigger] listed[q]).id == c;
                        assert(entities_to_delete@[q] == listed[q]);
                    } else {
                        assert(entities_to_delete@[listed.len() as int].id == c);
                    }
                }
            }
            j += 1;
        }
        proof {
            assert(self.world.slots_of(entities_to_delete@) =~= leaver_slots(&self.world)) by {
                assert forall|c: int|
                    self.world.slots_of(entities_to_delete@).contains(c) == leaver_slots(
                        &self.world,
                    ).contains(c) by {
                    if self.world.slots_of(entities_to_delete@).contains(c) {
                        let q = choose|q: int|
                            0 <= q < entities_to_delete@.len() && (
                            #[trigger] entities_to_delete@[q]).id == c
                                && self.world.entities.is_alive(entities_to_delete@[q]);
                    }
                    if leaver_slots(&self.world).contains(c) {
                        let q = choose|q: int|
                            0 <= q < entities_to_delete@.len() && (
                            #[trigger] entities_to_delete@[q]).id == c;
                        assert(self.world.entities.is_alive(entities_to_delete@[q]));
                    }
                }
            }
        }
        entities_to_delete
    }

    /// Sets the player down at `(x, y)` of a new level.
    fn arrive(&mut self, x: i32, y: i32)
        requires
            old(self).world.wf(),
        ensures
            final(self).world.wf(),
            arrived(&old(self).world, &final(self).world, x, y),
    {
        let player = self.world.player_entity;
        self.world.player_position = GridPoint { x, y };
        if self.world.entities.is_entity_alive(player) {
            if self.world.positions.has_slot(player.id) {
                self.world.positions.set(player.id, Position { x, y });
            }
            match self.world.fovs.unset(player.id) {
                Some(f) => {
                    self.world.fovs.set(player.id, FOV { needs_update: true, ..f });
                },
                None => {},
            }
        }
        self.world.gamelog.push(LogEntry::Descended);
        if self.world.entities.is_entity_alive(player) {
            let stats: Option<CombatStats> = match self.world.combat_stats.slot(player.id) {
                Some(s) => Some(*s),
                None => None,
            };
            if let Some(s) = stats {
                let least: i32 = crate::rect::midpoint(s.max_hp, 0);
                let hp: i32 = if s.hp >= least {
                    s.hp
                } else {
                    least
                };
                self.world.combat_stats.set(player.id, CombatStats { hp, ..s });
            }
        }
    }

    /// Populates room `k` of the level.
    fn populate_room(&mut self, k: usize)
        requires
            old(self).world.wf(),
            old(self).world.map.rooms_wf(),
            k < old(self).world.map.rooms@.len(),
        ensures
            final(self).world.wf(),
            final(self).world.map == old(self).world.map,
            populated(
                &(World { rng: final(self).world.rng, ..old(self).world }),
                &final(self).world,
                &old(self).world.map.rooms@[k as int],
                old(self).world.map.depth,
            ),
    {
        let room = self.world.map.rooms[k];
        let depth: i32 = self.world.map.depth;
        proof {
            assert(self.world.map.room_fits(self.world.map.rooms@[k as int]));
        }
        spawn_entities_in_room(&mut self.world, &room, depth);
    }

    /// Takes the player down one level: what does not belong to it is
    /// deleted, a new level is generated and populated, and the player
    /// arrives, rested, at the centre of the first room.
    pub fn goto_next_level(&mut self)
        requires
            old(self).world.wf(),
        ensures
            final(self).world.wf(),
            exists|stages: Seq<World>| #[trigger]
                is_descent(&old(self).world, &final(self).world, stages),
    {
        let entities_to_delete = self.entities_to_remove_on_depth_change();
        self.world.delete_entities(&entities_to_delete);
        let ghost purged = self.world;
        let current_depth: i32 = self.world.map.depth;
        let next_depth: i32 = saturate(current_depth as i64 + 1);
        self.world.map = GameMap::generate(
            next_depth,
            crate::map_builder::MAX_ROOMS,
            crate::map_builder::MIN_SIZE,
            crate::map_builder::MAX_SIZE,
            &mut self.world.rng,
        );
        let ghost mut stages: Seq<World> = seq![self.world];
        let ghost first = self.world;
        let rooms: usize = self.world.map.rooms.len();
        let mut k: usize = 1;
        while k < rooms
            invariant
                self.world.wf(),
                1 <= k <= rooms,
                rooms == self.world.map.rooms@.len(),
                self.world.map == stages[0].map,
                self.world.map.rooms_wf(),
                stages[0] == first,
                stages.len() == k,
                stages.last() == self.world,
                forall|q: int| 0 <= q < k - 1 ==> #[trigger] room_link(stages, q),
            decreases rooms - k,
        {
            self.populate_room(k);
            proof {
                let longer = stages.push(self.world);
                assert(longer[0] == stages[0]);
                assert forall|q: int| 0 <= q < k implies #[trigger] room_link(longer, q) by {
                    if q < k - 1 {
                        assert(room_link(stages, q));
                        assert(longer[q] == stages[q] && longer[q + 1] == stages[q + 1]);
                    } else {
                        assert(longer[q] == stages[q]);
                    }
                }
                stages = longer;
            }
            k += 1;
        }
        let (player_x, player_y) = self.world.map.rooms[0].center();
        proof {
            assert(self.world.map.room_fits(self.world.map.rooms@[0]));
        }
        self.arrive(player_x, player_y);
        proof {
            assert(stages[0] == first);
            assert((World { map: old(self).world.map, rng: old(self).world.rng, ..first })
                == purged);
            assert(is_descent(&old(self).world, &self.world, stages));
        }
    }

    /// `after` is `before` with the player holding the intent to use
    /// `item` at `target`. A dead player holds nothing.
    pub open spec fn use_declared(
        before: &World,
        after: &World,
        item: Entity,
        target: Option<GridPoint>,
    ) -> bool {
        &&& *after == (World { wants_to_use_item: after.wants_to_use_item, ..*before })
        &&& forall|j: int|
            #![trigger after.wants_to_use_item.at(j)]
            #![trigger before.wants_to_use_item.at(j)]
            after.wants_to_use_item.at(j) == (if before.entities.is_alive(before.player_entity)
                && j == before.player_entity.id {
                Some(WantsToUseItem { item, target })
            } else {
                before.wants_to_use_item.at(j)
            })
    }

    /// `after` is `before` with the player holding the intent to drop
    /// `item`. A dead player holds nothing.
    pub open spec fn drop_declared(before: &World, after: &World, item: Entity) -> bool {
        &&& *after == (World { wants_to_drop_item: after.wants_to_drop_item, ..*before })
        &&& forall|j: int|
            #![trigger after.wants_to_drop_item.at(j)]
            #![trigger before.wants_to_drop_item.at(j)]
            after.wants_to_drop_item.at(j) == (if before.entities.is_alive(before.player_entity)
                && j == before.player_entity.id {
                Some(WantsToDropItem { item })
            } else {
                before.wants_to_drop_item.at(j)
            })
    }

    /// The phase that follows the phase of `w` on `input`.
    pub open spec fn next_phase(w: &World, input: Input) -> RunState {
        match w.run_state {
            RunState::PreRun => RunState::AwaitingInput,
            RunState::AwaitingInput => match input {
                Input::Command(c) => phase_after(c),
                _ => RunState::AwaitingInput,
            },
            RunState::PlayerTurn => RunState::MonsterTurn,
            RunState::MonsterTurn => RunState::AwaitingInput,
            RunState::InInventory => match input {
                Input::ItemMenu(ItemMenuResult::Exit, _) => RunState::AwaitingInput,
                Input::ItemMenu(ItemMenuResult::Selected, Some(item)) => match w.ranged.of(
                    &w.entities,
                    item,
                ) {
                    Some(r) => RunState::ShowTargetting { range: r.range, item },
                    None => RunState::PlayerTurn,
                },
                _ => RunState::InInventory,
            },
            RunState::ShowDropItem => match input {
                Input::ItemMenu(ItemMenuResult::Exit, _) => RunState::AwaitingInput,
                Input::ItemMenu(ItemMenuResult::Selected, Some(item)) => RunState::PlayerTurn,
                _ => RunState::ShowDropItem,
            },
            RunState::ShowTargetting { range, item } => match input {
                Input::Targeting(ItemMenuResult::Exit, _) => RunState::AwaitingInput,
                Input::Targeting(ItemMenuResult::Selected, _) => RunState::PlayerTurn,
                _ => RunState::ShowTargetting { range, item },
            },
            RunState::MainMenu { menu_selection } => match input {
                Input::MainMenu(MainMenuResult::NoSelection { selected }) => RunState::MainMenu {
                    menu_selection: selected,
                },
                Input::MainMenu(MainMenuResult::Selected { selected }) => match selected {
                    MainMenuSelection::NewGame => RunState::PreRun,
                    MainMenuSelection::LoadGame => RunState::AwaitingInput,
                    MainMenuSelection::Quit => RunState::MainMenu { menu_selection },
                },
                _ => RunState::MainMenu { menu_selection },
            },
            RunState::SaveGame => RunState::SaveGame,
            RunState::DescendFloor => RunState::PreRun,
            RunState::GameOver => RunState::GameOver,
        }
    }

    /// What the front end is to do after a tick in `phase` on `input`.
    pub open spec fn outcome_of(phase: RunState, input: Input) -> Outcome {
        match (phase, input) {
            (RunState::SaveGame, _) => Outcome::Save,
            (
                RunState::MainMenu { menu_selection },
                Input::MainMenu(MainMenuResult::Selected { selected: MainMenuSelection::LoadGame }),
            ) => Outcome::Load,
            (
                RunState::MainMenu { menu_selection },
                Input::MainMenu(MainMenuResult::Selected { selected: MainMenuSelection::Quit }),
            ) => Outcome::Quit,
            _ => Outcome::Continue,
        }
    }

    /// What the phase of `before` does to the world on `input`, the phase
    /// itself left aside: the three simulation phases run one turn; the
    /// waiting phase carries out a command; the menus declare the player's
    /// intent; the descent changes the level; and nothing else touches the
    /// world.
    pub open spec fn acted<F: Fn(&GameMap, usize, usize) -> NavigationPath>(
        find_path: &F,
        before: &World,
        after: &World,
        input: Input,
    ) -> bool {
        match (before.run_state, input) {
            (RunState::PreRun, _) => Self::turned(find_path, before, after),
            (RunState::PlayerTurn, _) => Self::turned(find_path, before, after),
            (RunState::MonsterTurn, _) => Self::turned(find_path, before, after),
            (RunState::AwaitingInput, Input::Command(c)) => commanded(before, after, c),
            (
                RunState::InInventory,
                Input::ItemMenu(ItemMenuResult::Selected, Some(item)),
            ) => if before.ranged.of(&before.entities, item) is None {
                Self::use_declared(before, after, item, None)
            } else {
                *after == *before
            },
            (
                RunState::ShowDropItem,
                Input::ItemMenu(ItemMenuResult::Selected, Some(item)),
            ) => Self::drop_declared(before, after, item),
            (
                RunState::ShowTargetting { range, item },
                Input::Targeting(ItemMenuResult::Selected, target),
            ) => Self::use_declared(before, after, item, target),
            (RunState::DescendFloor, _) => exists|stages: Seq<World>| #[trigger]
                is_descent(before, after, stages),
            _ => *after == *before,
        }
    }

    /// What one tick makes of `before` on `input`: the phase acts, the next
    /// phase is entered, and the dead are reaped.
    pub open spec fn ticked<F: Fn(&GameMap, usize, usize) -> NavigationPath>(
        find_path: &F,
        before: &World,
        after: &World,
        input: Input,
    ) -> bool {
        exists|mid: World| #[trigger]
            Self::acted(find_path, before, &mid, input) && reaped(
                &(World { run_state: Self::next_phase(before, input), ..mid }),
                after,
            )
    }

    /// Declares the player's intent to use `item` at `target`.
    fn declare_use(&mut self, item: Entity, target: Option<GridPoint>)
        requires
            old(self).world.wf(),
        ensures
            final(self).world.wf(),
            Self::use_declared(&old(self).world, &final(self).world, item, target),
    {
        let player = self.world.player_entity;
        self.world.wants_to_use_item.insert(
            &self.world.entities,
            player,
            WantsToUseItem { item, target },
        );
    }

    /// Declares the player's intent to drop `item`.
    fn declare_drop(&mut self, item: Entity)
        requires
            old(self).world.wf(),
        ensures
            final(self).world.wf(),
            Self::drop_declared(&old(self).world, &final(self).world, item),
    {
        let player = self.world.player_entity;
        self.world.wants_to_drop_item.insert(
            &self.world.entities,
            player,
            WantsToDropItem { item },
        );
    }

    /// Lets the phase of the world act on `input`, and returns the phase
    /// that follows. The phase stored in the world is left as it is.
    fn act<F: Fn(&GameMap, usize, usize) -> NavigationPath>(
        &mut self,
        input: Input,
        find_path: &F,
    ) -> (next: RunState)
        requires
            old(self).world.wf(),
            forall|m: &GameMap, a: usize, b: usize|
                m.wf() && a < m.tile_count() && b < m.tile_count() ==> call_requires(
                    find_path,
                    (m, a, b),
                ),
        ensures
            final(self).world.wf(),
            Self::acted(find_path, &old(self).world, &final(self).world, input),
            next == Self::next_phase(&old(self).world, input),
    {
        match self.world.run_state {
            RunState::PreRun => {
                self.run_systems(find_path);
                RunState::AwaitingInput
            },
            RunState::AwaitingInput => match input {
                Input::Command(c) => player_input(&mut self.world, c),
                _ => RunState::AwaitingInput,
            },
            RunState::PlayerTurn => {
                self.run_systems(find_path);
                RunState::MonsterTurn
            },
            RunState::MonsterTurn => {
                self.run_systems(find_path);
                RunState::AwaitingInput
            },
            RunState::InInventory => match input {
                Input::ItemMenu(ItemMenuResult::Exit, _) => RunState::AwaitingInput,
                Input::ItemMenu(ItemMenuResult::Selected, Some(item)) => {
                    let reach: Option<i32> = match self.world.ranged.get(
                        &self.world.entities,
                        item,
                    ) {
                        Some(r) => Some(r.range),
                        None => None,
                    };
                    match reach {
                        Some(range) => RunState::ShowTargetting { range, item },
                        None => {
                            self.declare_use(item, None);
                            RunState::PlayerTurn
                        },
                    }
                },
                _ => RunState::InInventory,
            },
            RunState::ShowDropItem => match input {
                Input::ItemMenu(ItemMenuResult::Exit, _) => RunState::AwaitingInput,
                Input::ItemMenu(ItemMenuResult::Selected, Some(item)) => {
                    self.declare_drop(item);
                    RunState::PlayerTurn
                },
                _ => RunState::ShowDropItem,
            },
            RunState::ShowTargetting { range, item } => match input {
                Input::Targeting(ItemMenuResult::Exit, _) => RunState::AwaitingInput,
                Input::Targeting(ItemMenuResult::Selected, target) => {
                    self.declare_use(item, target);
                    RunState::PlayerTurn
                },
                _ => RunState::ShowTargetting { range, item },
            },
            RunState::MainMenu { menu_selection } => match input {
                Input::MainMenu(MainMenuResult::NoSelection { selected }) => RunState::MainMenu {
                    menu_selection: selected,
                },
                Input::MainMenu(MainMenuResult::Selected { selected }) => match selected {
                    MainMenuSelection::NewGame => RunState::PreRun,
                    MainMenuSelection::LoadGame => RunState::AwaitingInput,
                    MainMenuSelection::Quit => RunState::MainMenu { menu_selection },
                },
                _ => RunState::MainMenu { menu_selection },
            },
            RunState::SaveGame => RunState::SaveGame,
            RunState::DescendFloor => {
                self.goto_next_level();
                RunState::PreRun
            },
            RunState::GameOver => RunState::GameOver,
        }
    }

    /// Advances the game by one tick: the phase acts on `input`, the phase
    /// that follows is entered, and the dead are reaped. While the game
    /// waits, a tick without input changes nothing.
    pub fn tick<F: Fn(&GameMap, usize, usize) -> NavigationPath>(
        &mut self,
        input: Input,
        find_path: &F,
    ) -> (outcome: Outcome)
        requires
            old(self).world.wf(),
            forall|m: &GameMap, a: usize, b: usize|
                m.wf() && a < m.tile_count() && b < m.tile_count() ==> call_requires(
                    find_path,
                    (m, a, b),
                ),
        ensures
            final(self).world.wf(),
            Self::ticked(find_path, &old(self).world, &final(self).world, input),
            outcome == Self::outcome_of(old(self).world.run_state, input),
    {
        let phase = self.world.run_state;
        let next = self.act(input, find_path);
        let ghost mid = self.world;
        self.world.run_state = next;
        delete_dead_entities(&mut self.world);
        proof {
            assert(Self::acted(find_path, &old(self).world, &mid, input));
        }
        match (phase, input) {
            (RunState::SaveGame, _) => Outcome::Save,
            (
                RunState::MainMenu { menu_selection },
                Input::MainMenu(MainMenuResult::Selected { selected: MainMenuSelection::LoadGame }),
            ) => Outcome::Load,
            (
                RunState::MainMenu { menu_selection },
                Input::MainMenu(MainMenuResult::Selected { selected: MainMenuSelection::Quit }),
            ) => Outcome::Quit,
            _ => Outcome::Continue,
        }
    }

    /// `stages` leads to `world`, the world of a new game: a generated
    /// first level without entities but the player, who stands at the
    /// centre of the first room; then every room but the first is
    /// populated, one per stage. The game is in the phase `PreRun` and the
    /// log holds the greeting.
    pub open spec fn is_new_game(world: &World, stages: Seq<World>) -> bool {
        let first = stages[0];
        let x = first.map.rooms@[0].center_x() as i32;
        let y = first.map.rooms@[0].center_y() as i32;
        &&& stages.len() == first.map.rooms@.len()
        &&& stages.len() >= 1
        &&& stages.last() == *world
        &&& first.map.wf()
        &&& first.map.dungeon_wf()
        &&& first.map.is_untrodden()
        &&& first.map.width == crate::map::MAP_WIDTH
        &&& first.map.height == crate::map::MAP_HEIGHT
        &&& first.map.depth == 1
        &&& first.run_state == RunState::PreRun
        &&& first.gamelog.entries@ == seq![LogEntry::Welcome]
        &&& first.player_position == (GridPoint { x, y })
        &&& first.entities.is_alive(first.player_entity)
        &&& forall|j: int| j != first.player_entity.id ==> #[trigger] first.slot_is_bare(j)
        &&& forall|j: int| j != first.player_entity.id ==> !first.entities.slot_alive(j)
        &&& exists|name: crate::components::Name, fov: FOV| #[trigger]
            crate::spawner::player_outfit(x, y, name, fov) == first.outfit_at(
                first.player_entity.id as int,
            ) && name.name@ == "Player"@ && crate::spawner::is_fresh_view(fov)
        &&& forall|k: int| 0 <= k < stages.len() - 1 ==> #[trigger] room_link(stages, k)
    }

    /// Sets up a new game with `rng` as its random source: generates the
    /// first level, puts the player at the centre of its first room, and
    /// populates every other room.
    pub fn new_game(rng: rltk::RandomNumberGenerator) -> (state: State)
        ensures
            state.world.wf(),
            state.world.map.dungeon_wf(),
            exists|stages: Seq<World>| #[trigger] Self::is_new_game(&state.world, stages),
    {
        let mut rng = rng;
        let map = GameMap::generate(
            1,
            crate::map_builder::MAX_ROOMS,
            crate::map_builder::MIN_SIZE,
            crate::map_builder::MAX_SIZE,
            &mut rng,
        );
        proof {
            assert(map.room_fits(map.rooms@[0]));
        }
        let (player_x, player_y) = map.rooms[0].center();
        let mut world = World::new(map, rng);
        let ghost empty = world;
        let player_entity = crate::spawner::player(&mut world, player_x, player_y);
        world.player_entity = player_entity;
        world.player_position = GridPoint { x: player_x, y: player_y };
        let mut state = State { world };
        let ghost first = state.world;
        let ghost mut stages: Seq<World> = seq![state.world];
        proof {
            assert forall|j: int| j != first.player_entity.id implies #[trigger] first.slot_is_bare(
                j,
            ) by {
                assert(empty.slot_is_bare(j));
                assert(first.same_slot(&empty, j));
            }
        }
        let rooms: usize = state.world.map.rooms.len();
        let mut k: usize = 1;
        while k < rooms
            invariant
                state.world.wf(),
                1 <= k <= rooms,
                rooms == state.world.map.rooms@.len(),
                state.world.map == stages[0].map,
                state.world.map.rooms_wf(),
                stages[0] == first,
                stages.len() == k,
                stages.last() == state.world,
                forall|q: int| 0 <= q < k - 1 ==> #[trigger] room_link(stages, q),
            decreases rooms - k,
        {
            state.populate_room(k);
            proof {
                let longer = stages.push(state.world);
                assert(longer[0] == stages[0]);
                assert forall|q: int| 0 <= q < k implies #[trigger] room_link(longer, q) by {
                    if q < k - 1 {
                        assert(room_link(stages, q));
                        assert(longer[q] == stages[q] && longer[q + 1] == stages[q + 1]);
                    } else {
                        assert(longer[q] == stages[q]);
                    }
                }
                stages = longer;
            }
            k += 1;
        }
        proof {
            assert(Self::is_new_game(&state.world, stages));
        }
        state
    }
}

/// While the game waits for input, a tick without a command changes
/// nothing, provided that nobody is out of hit points: the phase, the map,
/// the log and every entity are as they were.
pub proof fn lemma_waiting_changes_nothing<F: Fn(&GameMap, usize, usize) -> NavigationPath>(
    find_path: &F,
    before: &World,
    after: &World,
)
    requires
        before.run_state == RunState::AwaitingInput,
        State::ticked(find_path, before, after, Input::Nothing),
        forall|j: int| !crate::damage_system::is_dead(before, j),
    ensures
        after.run_state == RunState::AwaitingInput,
        after.gamelog.entries@ == before.gamelog.entries@,
        after.map == before.map,
        forall|j: int| after.entities.slot_alive(j) == before.entities.slot_alive(j),
        forall|j: int| #[trigger] after.same_slot(before, j),
{
    let mid = choose|mid: World| #[trigger]
        State::acted(find_path, before, &mid, Input::Nothing) && reaped(
            &(World { run_state: State::next_phase(before, Input::Nothing), ..mid }),
            after,
        );
    let entered = World { run_state: State::next_phase(before, Input::Nothing), ..mid };
    assert(entered == *before);
    crate::damage_system::lemma_reaping_the_living_changes_nothing(before, after);
}

/// Nothing leads out of the phase in which the game is over.
pub proof fn lemma_game_over_is_final<F: Fn(&GameMap, usize, usize) -> NavigationPath>(
    find_path: &F,
    before: &World,
    after: &World,
    input: Input,
)
    requires
        before.run_state == RunState::GameOver,
        State::ticked(find_path, before, after, input),
    ensures
        after.run_state == RunState::GameOver,
{
}

/// After a turn no intent of any kind is left, whatever intents there were
/// before.
pub proof fn lemma_turn_clears_every_intent<F: Fn(&GameMap, usize, usize) -> NavigationPath>(
    find_path: &F,
    before: &World,
    after: &World,
    j: int,
)
    requires
        State::turned(find_path, before, after),
    ensures
        after.wants_to_melee.at(j) is None,
        after.wants_to_pickup_item.at(j) is None,
        after.wants_to_use_item.at(j) is None,
        after.wants_to_drop_item.at(j) is None,
        after.wants_to_unequip_item.at(j) is None,
{
}

/// A turn only adds to the log: what the log held before the turn is what
/// it starts with afterwards.
pub proof fn lemma_turn_only_adds_to_the_log<F: Fn(&GameMap, usize, usize) -> NavigationPath>(
    find_path: &F,
    before: &World,
    after: &World,
)
    requires
        State::turned(find_path, before, after),
    ensures
        before.gamelog.entries@.is_prefix_of(after.gamelog.entries@),
{
    let stages = choose|stages: Seq<World>| #[trigger]
        State::is_pipeline(find_path, before, after, stages);
    let l0 = stages[0].gamelog.entries@;
    let l3 = stages[3].gamelog.entries@;
    let l4 = stages[4].gamelog.entries@;
    let l5 = stages[5].gamelog.entries@;
    let l6 = stages[6].gamelog.entries@;
    let l7 = stages[7].gamelog.entries@;
    let l8 = stages[8].gamelog.entries@;
    let l9 = stages[9].gamelog.entries@;
    let l10 = stages[10].gamelog.entries@;
    assert(l3 == l0);
    assert(l3.is_prefix_of(l4));
    assert(l5 == l4);
    assert(l9.is_prefix_of(l10));
    lemma_prefix_chain(l4, l6, l7);
    lemma_prefix_chain(l4, l7, l8);
    lemma_prefix_chain(l4, l8, l9);
    lemma_prefix_chain(l4, l9, l10);
    lemma_prefix_chain(l3, l4, l10);
}

/// A start of a start is a start.
proof fn lemma_prefix_chain<T>(a: Seq<T>, b: Seq<T>, c: Seq<T>)
    requires
        a.is_prefix_of(b),
        b.is_prefix_of(c),
    ensures
        a.is_prefix_of(c),
{
}

/// No tick leaves behind an entity that is out of hit points, but for the
/// player.
pub proof fn lemma_no_corpse_outlives_a_tick<F: Fn(&GameMap, usize, usize) -> NavigationPath>(
    find_path: &F,
    before: &World,
    after: &World,
    input: Input,
    j: int,
)
    requires
        State::ticked(find_path, before, after, input),
        crate::damage_system::is_dead(after, j),
    ensures
        after.players.has(j),
{
    let mid = choose|mid: World| #[trigger]
        State::acted(find_path, before, &mid, input) && reaped(
            &(World { run_state: State::next_phase(before, input), ..mid }),
            after,
        );
    crate::damage_system::lemma_only_players_outlive_their_hit_points(
        &(World { run_state: State::next_phase(before, input), ..mid }),
        after,
        j,
    );
}

} // verus!
