use dungeon_core::components::{
    BlocksTile, CombatStats, GridPoint, HasMovementSpeedModifier, Item, Name, Player, Position,
    WantsToMelee, WantsToPickUpItem, FOV,
};
use dungeon_core::entity::Entity;
use dungeon_core::gamelog::LogEntry;
use dungeon_core::gui::MainMenuSelection;
use dungeon_core::map::GameMap;
use dungeon_core::map_indexing_system::MapIndexingSystem;
use dungeon_core::player::{pickup_item, player_input, try_move_player, Command};
use dungeon_core::rect::Rect;
use dungeon_core::state::RunState;
use dungeon_core::outfit::Outfit;
use dungeon_core::world::World;
use rltk::RandomNumberGenerator;

fn field(x: i32, y: i32) -> (World, Entity) {
    let mut map = GameMap::new(12, 10, 1);
    map.apply_room_to_map(&Rect::new(1, 1, 9, 7));
    let mut world = World::new(map, RandomNumberGenerator::seeded(3));
    let player = world.spawn(Outfit {
        position: Some(Position { x, y }),
        player: Some(Player {}),
        fov: Some(FOV { visible_tiles: Vec::new(), range: 8, needs_update: false }),
        name: Some(Name { name: "Player".to_string() }),
        combat_stats: Some(CombatStats { max_hp: 30, hp: 30, attack: 5, defense: 2 }),
        ..Outfit::none()
    });
    world.player_entity = player;
    world.player_position = GridPoint { x, y };
    (world, player)
}

#[test]
fn step_moves_the_player_and_asks_for_a_new_view() {
    let (mut world, player) = field(5, 5);
    MapIndexingSystem {}.run(&mut world);
    try_move_player(1, 0, &mut world);
    assert_eq!(world.positions.get(&world.entities, player), Some(&Position { x: 6, y: 5 }));
    assert_eq!(world.player_position, GridPoint { x: 6, y: 5 });
    assert!(world.fovs.get(&world.entities, player).unwrap().needs_update);
}

#[test]
fn up_is_towards_the_lower_rows() {
    let (mut world, player) = field(5, 5);
    MapIndexingSystem {}.run(&mut world);
    try_move_player(0, 1, &mut world);
    assert_eq!(world.positions.get(&world.entities, player), Some(&Position { x: 5, y: 4 }));
    try_move_player(-1, -1, &mut world);
    assert_eq!(world.positions.get(&world.entities, player), Some(&Position { x: 4, y: 5 }));
}

#[test]
fn walls_stop_the_player() {
    let (mut world, player) = field(1, 1);
    MapIndexingSystem {}.run(&mut world);
    try_move_player(-1, 0, &mut world);
    assert_eq!(world.positions.get(&world.entities, player), Some(&Position { x: 1, y: 1 }));
    assert_eq!(world.player_position, GridPoint { x: 1, y: 1 });
    assert!(!world.fovs.get(&world.entities, player).unwrap().needs_update);
}

#[test]
fn step_off_the_grid_is_no_step() {
    let (mut world, player) = field(1, 1);
    world.has_movement_speed_modifier.insert(
        &world.entities,
        player,
        HasMovementSpeedModifier { speed_modifier: 5, max_turns: 3, turns_used: 0 },
    );
    MapIndexingSystem {}.run(&mut world);
    try_move_player(-1, 0, &mut world);
    assert_eq!(world.positions.get(&world.entities, player), Some(&Position { x: 1, y: 1 }));
    try_move_player(i32::MAX, i32::MIN, &mut world);
    assert_eq!(world.positions.get(&world.entities, player), Some(&Position { x: 1, y: 1 }));
}

#[test]
fn speed_multiplies_the_step() {
    let (mut world, player) = field(2, 5);
    world.has_movement_speed_modifier.insert(
        &world.entities,
        player,
        HasMovementSpeedModifier { speed_modifier: 3, max_turns: 3, turns_used: 0 },
    );
    MapIndexingSystem {}.run(&mut world);
    try_move_player(1, 1, &mut world);
    assert_eq!(world.positions.get(&world.entities, player), Some(&Position { x: 5, y: 2 }));
    assert_eq!(
        world.has_movement_speed_modifier.get(&world.entities, player),
        Some(&HasMovementSpeedModifier { speed_modifier: 3, max_turns: 3, turns_used: 0 })
    );
}

#[test]
fn walking_into_a_fighter_attacks_it() {
    let (mut world, player) = field(5, 5);
    let orc = world.spawn(Outfit {
        position: Some(Position { x: 6, y: 5 }),
        blocks_tile: Some(BlocksTile {}),
        combat_stats: Some(CombatStats { max_hp: 16, hp: 16, attack: 4, defense: 1 }),
        ..Outfit::none()
    });
    MapIndexingSystem {}.run(&mut world);
    try_move_player(1, 0, &mut world);
    assert_eq!(world.wants_to_melee.get(&world.entities, player), Some(&WantsToMelee { target: orc }));
    assert_eq!(world.positions.get(&world.entities, player), Some(&Position { x: 5, y: 5 }));
    assert!(!world.fovs.get(&world.entities, player).unwrap().needs_update);
}

#[test]
fn walking_onto_an_item_is_a_plain_step() {
    let (mut world, player) = field(5, 5);
    world.spawn(Outfit { position: Some(Position { x: 6, y: 5 }), item: Some(Item {}), ..Outfit::none() });
    MapIndexingSystem {}.run(&mut world);
    try_move_player(1, 0, &mut world);
    assert_eq!(world.positions.get(&world.entities, player), Some(&Position { x: 6, y: 5 }));
    assert!(!world.wants_to_melee.contains(&world.entities, player));
}

#[test]
fn blocker_without_statistics_stops_the_player() {
    let (mut world, player) = field(5, 5);
    world.spawn(Outfit {
        position: Some(Position { x: 6, y: 5 }),
        blocks_tile: Some(BlocksTile {}),
        ..Outfit::none()
    });
    MapIndexingSystem {}.run(&mut world);
    try_move_player(1, 0, &mut world);
    assert_eq!(world.positions.get(&world.entities, player), Some(&Position { x: 5, y: 5 }));
    assert!(!world.wants_to_melee.contains(&world.entities, player));
}

#[test]
fn pickup_declares_the_intent_for_the_item_at_the_feet() {
    let (mut world, player) = field(5, 5);
    let far = world.spawn(Outfit { position: Some(Position { x: 2, y: 2 }), item: Some(Item {}), ..Outfit::none() });
    let low = world.spawn(Outfit { position: Some(Position { x: 5, y: 5 }), item: Some(Item {}), ..Outfit::none() });
    let top = world.spawn(Outfit { position: Some(Position { x: 5, y: 5 }), item: Some(Item {}), ..Outfit::none() });
    let log = world.gamelog.entries.len();
    pickup_item(&mut world);
    assert_eq!(
        world.wants_to_pickup_item.get(&world.entities, top),
        Some(&WantsToPickUpItem { collected_by: player, item: top })
    );
    assert!(!world.wants_to_pickup_item.contains(&world.entities, low));
    assert!(!world.wants_to_pickup_item.contains(&world.entities, far));
    assert_eq!(world.gamelog.entries.len(), log);
}

#[test]
fn pickup_with_nothing_there_says_so() {
    let (mut world, _player) = field(5, 5);
    world.spawn(Outfit { position: Some(Position { x: 2, y: 2 }), item: Some(Item {}), ..Outfit::none() });
    world.spawn(Outfit { position: Some(Position { x: 5, y: 5 }), ..Outfit::none() });
    pickup_item(&mut world);
    assert_eq!(world.wants_to_pickup_item.len(), 0);
    assert_eq!(world.gamelog.entries.last(), Some(&LogEntry::NothingToPickUp));
}

#[test]
fn commands_lead_to_their_phases() {
    let cases = [
        (Command::Nothing, RunState::AwaitingInput),
        (Command::Step { dx: 1, dy: 0 }, RunState::PlayerTurn),
        (Command::PickUp, RunState::PlayerTurn),
        (Command::OpenInventory, RunState::InInventory),
        (Command::OpenDropMenu, RunState::ShowDropItem),
        (Command::Save, RunState::SaveGame),
        (
            Command::MainMenu,
            RunState::MainMenu { menu_selection: MainMenuSelection::NewGame },
        ),
        (Command::Descend, RunState::DescendFloor),
    ];
    for (command, phase) in cases {
        let (mut world, _player) = field(5, 5);
        MapIndexingSystem {}.run(&mut world);
        assert_eq!(player_input(&mut world, command), phase);
    }
}

#[test]
fn commands_that_are_no_actions_leave_the_world_alone() {
    let (mut world, player) = field(5, 5);
    MapIndexingSystem {}.run(&mut world);
    for command in [Command::Nothing, Command::OpenInventory, Command::Save, Command::Descend] {
        let log = world.gamelog.entries.len();
        player_input(&mut world, command);
        assert_eq!(world.positions.get(&world.entities, player), Some(&Position { x: 5, y: 5 }));
        assert_eq!(world.gamelog.entries.len(), log);
        assert_eq!(world.wants_to_pickup_item.len(), 0);
    }
    assert_eq!(world.run_state, RunState::PreRun);
}
