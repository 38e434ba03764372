use dungeon_core::components::{
    CombatStats, Equipped, EquipmentSlot, GridPoint, InBackpack, Item, Monster, Name, Player,
    Position, SerializeMe, SuffersDamage, WantsToMelee, WantsToPickUpItem, FOV,
};
use dungeon_core::entity::Entity;
use dungeon_core::gamelog::LogEntry;
use dungeon_core::map::GameMap;
use dungeon_core::map_builder::{MAX_ROOMS, MAX_SIZE, MIN_SIZE};
use dungeon_core::map_indexing_system::MapIndexingSystem;
use dungeon_core::save_system::{load_game, save_game};
use dungeon_core::state::{RunState, State};
use dungeon_core::outfit::Outfit;
use dungeon_core::world::World;
use rltk::RandomNumberGenerator;

fn snapshot(world: &World) -> Vec<(Option<Position>, Option<CombatStats>, Option<String>)> {
    let mut rows = Vec::new();
    for slot in 0..world.entities.len() {
        if world.entities.slot_is_alive(slot) && world.serialize_me.has_slot(slot) {
            rows.push((
                world.positions.copied(slot),
                world.combat_stats.copied(slot),
                world.names.slot(slot).map(|n| n.name.clone()),
            ));
        }
    }
    rows
}

#[test]
fn save_then_load_reproduces_the_world() {
    let mut state = State::new_game(RandomNumberGenerator::seeded(12));
    MapIndexingSystem {}.run(&mut state.world);
    let before = snapshot(&state.world);
    let tiles = state.world.map.tiles.clone();
    let rooms = state.world.map.rooms.clone();
    let revealed = state.world.map.revealed_tiles.clone();
    let saved = save_game(&state.world);
    assert_eq!(saved.entities.len(), before.len());
    assert!(load_game(&mut state.world, &saved));
    assert_eq!(snapshot(&state.world), before);
    assert_eq!(state.world.map.tiles, tiles);
    assert_eq!(state.world.map.rooms, rooms);
    assert_eq!(state.world.map.revealed_tiles, revealed);
    assert_eq!((state.world.map.width, state.world.map.height, state.world.map.depth), (80, 43, 1));
    assert!(state.world.map.tile_content.iter().all(|c| c.is_empty()));
    let w = &state.world;
    assert!(w.players.contains(&w.entities, w.player_entity));
    let p = w.positions.get(&w.entities, w.player_entity).unwrap();
    assert_eq!(w.player_position, GridPoint { x: p.x, y: p.y });
}

#[test]
fn load_into_another_world_gives_the_saved_one() {
    let state = State::new_game(RandomNumberGenerator::seeded(30));
    let saved = save_game(&state.world);
    let mut other = State::new_game(RandomNumberGenerator::seeded(31));
    other.world.run_state = RunState::AwaitingInput;
    other.world.gamelog.push(LogEntry::Descended);
    assert!(load_game(&mut other.world, &saved));
    assert_eq!(snapshot(&other.world), snapshot(&state.world));
    assert_eq!(other.world.map.tiles, state.world.map.tiles);
    // phase and log are not part of a saved game
    assert_eq!(other.world.run_state, RunState::AwaitingInput);
    assert_eq!(other.world.gamelog.entries, vec![LogEntry::Welcome, LogEntry::Descended]);
}

fn marked(outfit: Outfit) -> Outfit {
    Outfit { serialize_me: Some(SerializeMe), ..outfit }
}

fn world_with_references() -> (World, Entity, Entity, Entity, Entity) {
    let mut world = World::new(GameMap::new(6, 6, 3), RandomNumberGenerator::seeded(1));
    let filler = world.spawn(Outfit::none());
    let temp = world.spawn(Outfit::none());
    let player = world.spawn(marked(Outfit {
        player: Some(Player {}),
        position: Some(Position { x: 2, y: 3 }),
        name: Some(Name { name: "Player".to_string() }),
        fov: Some(FOV { visible_tiles: vec![GridPoint { x: 2, y: 3 }], range: 8, needs_update: false }),
        ..Outfit::none()
    }));
    let unsaved = world.spawn(Outfit { monster: Some(Monster {}), ..Outfit::none() });
    let sword = world.spawn(marked(Outfit {
        item: Some(Item {}),
        equipped: Some(Equipped { owner: player, slot: EquipmentSlot::Melee }),
        ..Outfit::none()
    }));
    let potion = world.spawn(marked(Outfit {
        item: Some(Item {}),
        in_backpack: Some(InBackpack { owner: player }),
        wants_to_pickup_item: Some(WantsToPickUpItem { collected_by: unsaved, item: sword }),
        suffers_damage: Some(SuffersDamage { amount: vec![1, 2] }),
        ..Outfit::none()
    }));
    world.wants_to_melee.insert(&world.entities, player, WantsToMelee { target: temp });
    world.delete_entity(temp);
    world.delete_entity(filler);
    world.player_entity = player;
    (world, player, sword, potion, unsaved)
}

#[test]
fn saved_references_are_ordinals() {
    let (world, _player, _sword, _potion, _unsaved) = world_with_references();
    let saved = save_game(&world);
    assert_eq!(saved.entities.len(), 3);
    let nothing = Entity { id: usize::MAX, generation: 0 };
    assert_eq!(saved.entities[0].position, Some(Position { x: 2, y: 3 }));
    assert_eq!(saved.entities[0].wants_to_melee, Some(WantsToMelee { target: nothing }));
    assert_eq!(
        saved.entities[1].equipped,
        Some(Equipped { owner: Entity { id: 0, generation: 0 }, slot: EquipmentSlot::Melee })
    );
    assert_eq!(
        saved.entities[2].in_backpack,
        Some(InBackpack { owner: Entity { id: 0, generation: 0 } })
    );
    assert_eq!(
        saved.entities[2].wants_to_pickup_item,
        Some(WantsToPickUpItem { collected_by: nothing, item: Entity { id: 1, generation: 0 } })
    );
    assert_eq!(saved.entities[2].suffers_damage.as_ref().unwrap().amount, vec![1, 2]);
    assert_eq!(saved.helper.map.depth, 3);
    assert_eq!(saved.helper.map.tiles, world.map.tiles);
}

#[test]
fn loaded_references_name_the_new_entities() {
    let (mut world, player, _sword, _potion, unsaved) = world_with_references();
    let saved = save_game(&world);
    assert!(load_game(&mut world, &saved));
    assert!(!world.monsters.has_slot(unsaved.id) || !world.entities.is_entity_alive(unsaved));
    let alive: Vec<usize> = (0..world.entities.len()).filter(|s| world.entities.slot_is_alive(*s)).collect();
    assert_eq!(alive.len(), 3);
    let new_player = world.player_entity;
    assert!(world.entities.is_entity_alive(new_player));
    assert_ne!(new_player, player);
    assert!(world.players.contains(&world.entities, new_player));
    assert_eq!(world.player_position, GridPoint { x: 2, y: 3 });
    let fov = world.fovs.get(&world.entities, new_player).unwrap();
    assert_eq!(fov.visible_tiles, vec![GridPoint { x: 2, y: 3 }]);
    let target = world.wants_to_melee.get(&world.entities, new_player).unwrap().target;
    assert!(!world.entities.is_entity_alive(target));
    let mut worn = 0;
    let mut carried = 0;
    for slot in alive {
        if let Some(q) = world.equipped.slot(slot) {
            assert_eq!(q.owner, new_player);
            worn += 1;
        }
        if let Some(b) = world.in_backpack.slot(slot) {
            assert_eq!(b.owner, new_player);
            let intent = world.wants_to_pickup_item.slot(slot).unwrap();
            assert!(!world.entities.is_entity_alive(intent.collected_by));
            assert!(world.equipped.contains(&world.entities, intent.item));
            carried += 1;
        }
    }
    assert_eq!((worn, carried), (1, 1));
}

#[test]
fn malformed_save_is_refused_and_the_world_is_kept() {
    let mut state = State::new_game(RandomNumberGenerator::seeded(2));
    let mut saved = save_game(&state.world);
    saved.helper.map.tiles.pop();
    let before = snapshot(&state.world);
    let player = state.world.player_entity;
    let count = state.world.entities.len();
    assert!(!load_game(&mut state.world, &saved));
    assert_eq!(snapshot(&state.world), before);
    assert_eq!(state.world.player_entity, player);
    assert_eq!(state.world.entities.len(), count);
    assert!(state.world.entities.is_entity_alive(player));
    assert!(state.world.map.is_well_formed());
}

#[test]
fn save_without_marked_entities_holds_only_the_map() {
    let mut rng = RandomNumberGenerator::seeded(5);
    let map = GameMap::generate(2, MAX_ROOMS, MIN_SIZE, MAX_SIZE, &mut rng);
    let mut world = World::new(map, rng);
    world.spawn(Outfit { position: Some(Position { x: 1, y: 1 }), ..Outfit::none() });
    let saved = save_game(&world);
    assert!(saved.entities.is_empty());
    assert_eq!(saved.helper.map.rooms, world.map.rooms);
    let mut target = World::new(GameMap::new(3, 3, 1), RandomNumberGenerator::seeded(5));
    let old = target.spawn(Outfit { name: Some(Name { name: "old".to_string() }), ..Outfit::none() });
    target.player_entity = old;
    target.player_position = GridPoint { x: 1, y: 2 };
    assert!(load_game(&mut target, &saved));
    assert!(!target.entities.is_entity_alive(old));
    assert_eq!(target.map.tiles, world.map.tiles);
    assert_eq!(target.player_position, GridPoint { x: 1, y: 2 });
    assert_eq!(target.player_entity, old);
}
