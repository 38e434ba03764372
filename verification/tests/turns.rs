use dungeon_core::components::{
    BlocksTile, CombatStats, Equipped, EquipmentSlot, GridPoint, InBackpack, Item, Monster, Name,
    Player, Position, Ranged, WantsToDropItem, WantsToMelee, WantsToPickUpItem,
    WantsToUnequipItem, WantsToUseItem, FOV,
};
use dungeon_core::entity::Entity;
use dungeon_core::gamelog::LogEntry;
use dungeon_core::gui::{ItemMenuResult, MainMenuResult, MainMenuSelection};
use dungeon_core::map::{GameMap, TileType};
use dungeon_core::monster_ai_system::NavigationPath;
use dungeon_core::player::Command;
use dungeon_core::rect::Rect;
use dungeon_core::state::{Input, Outcome, RunState, State};
use dungeon_core::outfit::Outfit;
use dungeon_core::world::World;
use rltk::RandomNumberGenerator;

fn straight(map: &GameMap, from: usize, to: usize) -> NavigationPath {
    // one step along the row towards the goal
    let w = map.width as usize;
    let next = if to % w < from % w { from - 1 } else { from + 1 };
    NavigationPath { destination: to, success: true, steps: vec![from, next] }
}

fn small_game() -> (State, Entity) {
    let mut map = GameMap::new(14, 10, 1);
    map.apply_room_to_map(&Rect::new(1, 1, 11, 7));
    let mut world = World::new(map, RandomNumberGenerator::seeded(9));
    let player = world.spawn(Outfit {
        position: Some(Position { x: 3, y: 4 }),
        player: Some(Player {}),
        fov: Some(FOV { visible_tiles: Vec::new(), range: 8, needs_update: true }),
        name: Some(Name { name: "Player".to_string() }),
        combat_stats: Some(CombatStats { max_hp: 30, hp: 30, attack: 5, defense: 2 }),
        ..Outfit::none()
    });
    world.player_entity = player;
    world.player_position = GridPoint { x: 3, y: 4 };
    (State { world }, player)
}

fn add_monster(state: &mut State, x: i32, y: i32, hp: i32) -> Entity {
    state.world.spawn(Outfit {
        position: Some(Position { x, y }),
        monster: Some(Monster {}),
        blocks_tile: Some(BlocksTile {}),
        fov: Some(FOV { visible_tiles: Vec::new(), range: 8, needs_update: true }),
        name: Some(Name { name: "Orc".to_string() }),
        combat_stats: Some(CombatStats { max_hp: 16, hp, attack: 4, defense: 1 }),
        ..Outfit::none()
    })
}

#[test]
fn phases_cycle_from_pre_run_through_the_turns() {
    let (mut state, _player) = small_game();
    assert_eq!(state.world.run_state, RunState::PreRun);
    assert_eq!(state.tick(Input::Nothing, &straight), Outcome::Continue);
    assert_eq!(state.world.run_state, RunState::AwaitingInput);
    state.tick(Input::Command(Command::Step { dx: 1, dy: 0 }), &straight);
    assert_eq!(state.world.run_state, RunState::PlayerTurn);
    state.tick(Input::Nothing, &straight);
    assert_eq!(state.world.run_state, RunState::MonsterTurn);
    state.tick(Input::Nothing, &straight);
    assert_eq!(state.world.run_state, RunState::AwaitingInput);
}

#[test]
fn waiting_without_input_changes_nothing() {
    let (mut state, player) = small_game();
    let orc = add_monster(&mut state, 8, 4, 16);
    state.tick(Input::Nothing, &straight);
    let log = state.world.gamelog.entries.clone();
    let blocked = state.world.map.blocked_tiles.clone();
    let revealed = state.world.map.revealed_tiles.clone();
    for input in [
        Input::Nothing,
        Input::Command(Command::Nothing),
        Input::ItemMenu(ItemMenuResult::Selected, Some(orc)),
        Input::MainMenu(MainMenuResult::Selected { selected: MainMenuSelection::Quit }),
    ] {
        assert_eq!(state.tick(input, &straight), Outcome::Continue);
        assert_eq!(state.world.run_state, RunState::AwaitingInput);
    }
    assert_eq!(state.world.gamelog.entries, log);
    assert_eq!(state.world.map.blocked_tiles, blocked);
    assert_eq!(state.world.map.revealed_tiles, revealed);
    assert_eq!(state.world.positions.get(&state.world.entities, player), Some(&Position { x: 3, y: 4 }));
    assert_eq!(state.world.positions.get(&state.world.entities, orc), Some(&Position { x: 8, y: 4 }));
}

#[test]
fn a_turn_brings_views_index_and_intents_up_to_date() {
    let (mut state, player) = small_game();
    let orc = add_monster(&mut state, 8, 4, 16);
    let item = state.world.spawn(Outfit {
        position: Some(Position { x: 3, y: 4 }),
        item: Some(Item {}),
        name: Some(Name { name: "Dagger".to_string() }),
        ..Outfit::none()
    });
    let other = state.world.spawn(Outfit { name: Some(Name { name: "x".to_string() }), ..Outfit::none() });
    state.world.wants_to_pickup_item.insert(
        &state.world.entities,
        item,
        WantsToPickUpItem { collected_by: player, item },
    );
    state.world.wants_to_melee.insert(&state.world.entities, player, WantsToMelee { target: orc });
    state.world.wants_to_use_item.insert(&state.world.entities, player, WantsToUseItem { item: other, target: None });
    state.world.wants_to_drop_item.insert(&state.world.entities, orc, WantsToDropItem { item: other });
    state.world.wants_to_unequip_item.insert(&state.world.entities, orc, WantsToUnequipItem { item: other });
    state.run_systems(&straight);
    let w = &state.world;
    assert_eq!(w.wants_to_melee.len(), 0);
    assert_eq!(w.wants_to_pickup_item.len(), 0);
    assert_eq!(w.wants_to_use_item.len(), 0);
    assert_eq!(w.wants_to_drop_item.len(), 0);
    assert_eq!(w.wants_to_unequip_item.len(), 0);
    assert_eq!(w.suffers_damage.len(), 0);
    assert!(!w.fovs.get(&w.entities, player).unwrap().needs_update);
    assert!(!w.fovs.get(&w.entities, orc).unwrap().needs_update);
    assert!(w.map.revealed_tiles[w.map.xy_idx(3, 4)]);
    assert!(w.map.blocked_tiles[w.map.xy_idx(8, 4)]);
    assert!(!w.map.blocked_tiles[w.map.xy_idx(3, 4)]);
    assert_eq!(w.map.tile_content[w.map.xy_idx(8, 4)], vec![orc]);
    // the blow of the player: 5 - 1
    assert_eq!(w.combat_stats.get(&w.entities, orc).unwrap().hp, 12);
    assert!(w.in_backpack.contains(&w.entities, item));
    assert_eq!(w.in_backpack.get(&w.entities, other), Some(&InBackpack { owner: orc }));
    assert_eq!(w.run_state, RunState::PreRun);
}

#[test]
fn monsters_walk_up_and_attack_over_the_turns() {
    let (mut state, player) = small_game();
    let orc = add_monster(&mut state, 6, 4, 16);
    state.tick(Input::Nothing, &straight);
    for _ in 0..2 {
        state.tick(Input::Command(Command::PickUp), &straight);
        state.tick(Input::Nothing, &straight);
        state.tick(Input::Nothing, &straight);
    }
    let w = &state.world;
    assert_eq!(w.positions.get(&w.entities, orc), Some(&Position { x: 4, y: 4 }));
    assert_eq!(w.run_state, RunState::AwaitingInput);
    // the intent of the monster turn is resolved in the next turn
    let hp_before = w.combat_stats.get(&w.entities, player).unwrap().hp;
    assert_eq!(hp_before, 30);
    state.tick(Input::Command(Command::PickUp), &straight);
    state.tick(Input::Nothing, &straight);
    state.tick(Input::Nothing, &straight);
    state.tick(Input::Command(Command::PickUp), &straight);
    state.tick(Input::Nothing, &straight);
    let w = &state.world;
    assert_eq!(w.positions.get(&w.entities, orc), Some(&Position { x: 4, y: 4 }));
    // one blow of the orc landed: 4 - 2
    assert_eq!(w.combat_stats.get(&w.entities, player).unwrap().hp, 28);
}

#[test]
fn killing_blow_removes_the_monster_at_the_end_of_the_tick() {
    let (mut state, player) = small_game();
    let orc = add_monster(&mut state, 4, 4, 3);
    state.tick(Input::Nothing, &straight);
    state.tick(Input::Command(Command::Step { dx: 1, dy: 0 }), &straight);
    assert_eq!(
        state.world.wants_to_melee.get(&state.world.entities, player),
        Some(&WantsToMelee { target: orc })
    );
    state.tick(Input::Nothing, &straight);
    assert!(!state.world.entities.is_entity_alive(orc));
    assert_eq!(
        state.world.gamelog.entries.last(),
        Some(&LogEntry::Died { name: "Orc".to_string() })
    );
    assert_eq!(state.world.run_state, RunState::MonsterTurn);
}

#[test]
fn death_of_the_player_ends_the_game_for_good() {
    let (mut state, player) = small_game();
    state.world.combat_stats.insert(
        &state.world.entities,
        player,
        CombatStats { max_hp: 30, hp: 0, attack: 5, defense: 2 },
    );
    state.world.run_state = RunState::AwaitingInput;
    state.tick(Input::Nothing, &straight);
    assert_eq!(state.world.run_state, RunState::GameOver);
    assert!(state.world.entities.is_entity_alive(player));
    for input in [Input::Nothing, Input::Command(Command::Step { dx: 1, dy: 0 })] {
        assert_eq!(state.tick(input, &straight), Outcome::Continue);
        assert_eq!(state.world.run_state, RunState::GameOver);
    }
    assert_eq!(state.world.positions.get(&state.world.entities, player), Some(&Position { x: 3, y: 4 }));
}

#[test]
fn inventory_choice_declares_the_use_or_asks_for_a_target() {
    let (mut state, player) = small_game();
    let potion = state.world.spawn(Outfit { item: Some(Item {}), ..Outfit::none() });
    let scroll = state.world.spawn(Outfit {
        item: Some(Item {}),
        ranged: Some(Ranged { range: 6 }),
        ..Outfit::none()
    });
    state.world.run_state = RunState::InInventory;
    state.tick(Input::ItemMenu(ItemMenuResult::NoResponse, None), &straight);
    assert_eq!(state.world.run_state, RunState::InInventory);
    state.tick(Input::ItemMenu(ItemMenuResult::Selected, None), &straight);
    assert_eq!(state.world.run_state, RunState::InInventory);
    state.tick(Input::ItemMenu(ItemMenuResult::Selected, Some(potion)), &straight);
    assert_eq!(state.world.run_state, RunState::PlayerTurn);
    assert_eq!(
        state.world.wants_to_use_item.get(&state.world.entities, player),
        Some(&WantsToUseItem { item: potion, target: None })
    );
    state.world.wants_to_use_item.clear();
    state.world.run_state = RunState::InInventory;
    state.tick(Input::ItemMenu(ItemMenuResult::Selected, Some(scroll)), &straight);
    assert_eq!(state.world.run_state, RunState::ShowTargetting { range: 6, item: scroll });
    assert_eq!(state.world.wants_to_use_item.len(), 0);
    state.tick(
        Input::Targeting(ItemMenuResult::Selected, Some(GridPoint { x: 5, y: 4 })),
        &straight,
    );
    assert_eq!(state.world.run_state, RunState::PlayerTurn);
    assert_eq!(
        state.world.wants_to_use_item.get(&state.world.entities, player),
        Some(&WantsToUseItem { item: scroll, target: Some(GridPoint { x: 5, y: 4 }) })
    );
}

#[test]
fn menus_can_be_left_without_a_trace() {
    let (mut state, _player) = small_game();
    let item = state.world.spawn(Outfit { item: Some(Item {}), ..Outfit::none() });
    for (phase, input) in [
        (RunState::InInventory, Input::ItemMenu(ItemMenuResult::Exit, None)),
        (RunState::ShowDropItem, Input::ItemMenu(ItemMenuResult::Exit, Some(item))),
        (
            RunState::ShowTargetting { range: 6, item },
            Input::Targeting(ItemMenuResult::Exit, None),
        ),
    ] {
        state.world.run_state = phase;
        assert_eq!(state.tick(input, &straight), Outcome::Continue);
        assert_eq!(state.world.run_state, RunState::AwaitingInput);
        assert_eq!(state.world.wants_to_use_item.len(), 0);
        assert_eq!(state.world.wants_to_drop_item.len(), 0);
    }
}

#[test]
fn drop_menu_choice_declares_the_drop() {
    let (mut state, player) = small_game();
    let item = state.world.spawn(Outfit { item: Some(Item {}), ..Outfit::none() });
    state.world.run_state = RunState::ShowDropItem;
    state.tick(Input::ItemMenu(ItemMenuResult::Selected, Some(item)), &straight);
    assert_eq!(state.world.run_state, RunState::PlayerTurn);
    assert_eq!(
        state.world.wants_to_drop_item.get(&state.world.entities, player),
        Some(&WantsToDropItem { item })
    );
}

#[test]
fn main_menu_moves_selects_loads_and_quits() {
    let (mut state, _player) = small_game();
    let menu = |s| RunState::MainMenu { menu_selection: s };
    state.world.run_state = menu(MainMenuSelection::NewGame);
    let r = state.tick(
        Input::MainMenu(MainMenuResult::NoSelection { selected: MainMenuSelection::LoadGame }),
        &straight,
    );
    assert_eq!(r, Outcome::Continue);
    assert_eq!(state.world.run_state, menu(MainMenuSelection::LoadGame));
    let r = state.tick(
        Input::MainMenu(MainMenuResult::Selected { selected: MainMenuSelection::LoadGame }),
        &straight,
    );
    assert_eq!(r, Outcome::Load);
    assert_eq!(state.world.run_state, RunState::AwaitingInput);
    state.world.run_state = menu(MainMenuSelection::Quit);
    let r = state.tick(
        Input::MainMenu(MainMenuResult::Selected { selected: MainMenuSelection::Quit }),
        &straight,
    );
    assert_eq!(r, Outcome::Quit);
    assert_eq!(state.world.run_state, menu(MainMenuSelection::Quit));
    let r = state.tick(
        Input::MainMenu(MainMenuResult::Selected { selected: MainMenuSelection::NewGame }),
        &straight,
    );
    assert_eq!(r, Outcome::Continue);
    assert_eq!(state.world.run_state, RunState::PreRun);
}

#[test]
fn save_phase_asks_for_the_save() {
    let (mut state, _player) = small_game();
    state.world.run_state = RunState::AwaitingInput;
    assert_eq!(state.tick(Input::Command(Command::Save), &straight), Outcome::Continue);
    assert_eq!(state.world.run_state, RunState::SaveGame);
    assert_eq!(state.tick(Input::Nothing, &straight), Outcome::Save);
    assert_eq!(state.world.run_state, RunState::SaveGame);
}

#[test]
fn descent_keeps_the_player_and_what_it_owns() {
    let (mut state, player) = small_game();
    let orc = add_monster(&mut state, 8, 4, 16);
    let carried = state.world.spawn(Outfit {
        item: Some(Item {}),
        in_backpack: Some(InBackpack { owner: player }),
        ..Outfit::none()
    });
    let worn = state.world.spawn(Outfit {
        item: Some(Item {}),
        equipped: Some(Equipped { owner: player, slot: EquipmentSlot::Shield }),
        ..Outfit::none()
    });
    let loot = state.world.spawn(Outfit {
        item: Some(Item {}),
        in_backpack: Some(InBackpack { owner: orc }),
        ..Outfit::none()
    });
    let lying = state.world.spawn(Outfit {
        item: Some(Item {}),
        position: Some(Position { x: 2, y: 2 }),
        ..Outfit::none()
    });
    assert_eq!(state.entities_to_remove_on_depth_change(), vec![orc, loot, lying]);
    state.world.combat_stats.insert(
        &state.world.entities,
        player,
        CombatStats { max_hp: 30, hp: 4, attack: 5, defense: 2 },
    );
    state.world.fovs.insert(
        &state.world.entities,
        player,
        FOV { visible_tiles: vec![GridPoint { x: 1, y: 1 }], range: 8, needs_update: false },
    );
    state.world.run_state = RunState::DescendFloor;
    state.tick(Input::Nothing, &straight);
    let w = &state.world;
    assert_eq!(w.run_state, RunState::PreRun);
    assert!(w.entities.is_entity_alive(player));
    assert!(w.entities.is_entity_alive(carried));
    assert!(w.entities.is_entity_alive(worn));
    assert!(!w.entities.is_entity_alive(orc));
    assert!(!w.entities.is_entity_alive(loot));
    assert!(!w.entities.is_entity_alive(lying));
    assert_eq!(w.map.depth, 2);
    assert_eq!((w.map.width, w.map.height), (80, 43));
    let (x, y) = w.map.rooms[0].center();
    assert_eq!(w.positions.get(&w.entities, player), Some(&Position { x, y }));
    assert_eq!(w.player_position, GridPoint { x, y });
    assert_eq!(w.map.tiles[w.map.xy_idx(x, y)], TileType::Floor);
    assert!(w.fovs.get(&w.entities, player).unwrap().needs_update);
    assert_eq!(w.combat_stats.get(&w.entities, player).unwrap().hp, 15);
    assert!(w.gamelog.entries.contains(&LogEntry::Descended));
    // what was created on the new level stands in its rooms, but not in the first
    let first = w.map.rooms[0];
    for slot in 0..w.entities.len() {
        if slot != player.id && w.entities.slot_is_alive(slot) {
            if let Some(p) = w.positions.slot(slot) {
                assert!(w.map.rooms.iter().skip(1).any(|r| r.x1 <= p.x
                    && p.x <= r.x2
                    && r.y1 <= p.y
                    && p.y <= r.y2));
                assert!(!(first.x1 <= p.x && p.x <= first.x2 && first.y1 <= p.y && p.y <= first.y2));
            }
        }
    }
}

#[test]
fn rest_between_levels_never_lowers_hit_points() {
    let (mut state, player) = small_game();
    state.world.combat_stats.insert(
        &state.world.entities,
        player,
        CombatStats { max_hp: 30, hp: 22, attack: 5, defense: 2 },
    );
    state.goto_next_level();
    assert_eq!(state.world.combat_stats.get(&state.world.entities, player).unwrap().hp, 22);
}

#[test]
fn new_game_sets_the_player_into_the_first_room() {
    let state = State::new_game(RandomNumberGenerator::seeded(21));
    let w = &state.world;
    assert_eq!(w.run_state, RunState::PreRun);
    assert_eq!(w.gamelog.entries, vec![LogEntry::Welcome]);
    assert_eq!(w.map.depth, 1);
    let player = w.player_entity;
    assert!(w.entities.is_entity_alive(player));
    assert!(w.players.contains(&w.entities, player));
    let (x, y) = w.map.rooms[0].center();
    assert_eq!(w.positions.get(&w.entities, player), Some(&Position { x, y }));
    assert_eq!(w.player_position, GridPoint { x, y });
    assert_eq!(w.names.get(&w.entities, player).unwrap().name, "Player");
    assert_eq!(
        w.combat_stats.get(&w.entities, player),
        Some(&CombatStats { max_hp: 30, hp: 30, attack: 5, defense: 2 })
    );
    let players = (0..w.entities.len()).filter(|s| w.players.has_slot(*s)).count();
    assert_eq!(players, 1);
    assert!(w.entities.len() > 1);
}

#[test]
fn a_whole_game_can_be_played_for_a_while() {
    let mut state = State::new_game(RandomNumberGenerator::seeded(4));
    let commands = [
        Command::Step { dx: 1, dy: 0 },
        Command::Step { dx: 0, dy: 1 },
        Command::PickUp,
        Command::Step { dx: -1, dy: -1 },
    ];
    for round in 0..60 {
        match state.world.run_state {
            RunState::AwaitingInput => {
                state.tick(Input::Command(commands[round % commands.len()]), &straight);
            }
            RunState::GameOver => break,
            _ => {
                state.tick(Input::Nothing, &straight);
            }
        }
        let w = &state.world;
        assert!(w.map.is_well_formed());
        assert_eq!(w.wants_to_use_item.len(), 0);
        for slot in 0..w.positions.len() {
            if w.positions.has_slot(slot) {
                assert!(w.entities.slot_is_alive(slot));
            }
        }
    }
}

#[test]
fn a_seeded_game_is_reproducible() {
    let mut a = State::new_game(RandomNumberGenerator::seeded(77));
    let mut b = State::new_game(RandomNumberGenerator::seeded(77));
    assert_eq!(a.world.map.tiles, b.world.map.tiles);
    assert_eq!(a.world.entities.len(), b.world.entities.len());
    a.goto_next_level();
    b.goto_next_level();
    assert_eq!(a.world.map.tiles, b.world.map.tiles);
    assert_eq!(a.world.map.rooms, b.world.map.rooms);
    assert_eq!(a.world.entities.len(), b.world.entities.len());
    for slot in 0..a.world.entities.len() {
        assert_eq!(a.world.positions.slot(slot), b.world.positions.slot(slot));
        assert_eq!(
            a.world.names.slot(slot).map(|n| n.name.clone()),
            b.world.names.slot(slot).map(|n| n.name.clone())
        );
    }
    let c = State::new_game(RandomNumberGenerator::seeded(78));
    assert_ne!(a.world.map.tiles, c.world.map.tiles);
}
