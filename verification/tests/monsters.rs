use dungeon_core::components::{
    BlocksTile, CombatStats, GridPoint, IsConfused, Monster, Name, Position, WantsToMelee, FOV,
};
use dungeon_core::entity::Entity;
use dungeon_core::map::GameMap;
use dungeon_core::map_indexing_system::MapIndexingSystem;
use dungeon_core::monster_ai_system::{contains_point, MonsterAI, NavigationPath, Plan};
use dungeon_core::rect::Rect;
use dungeon_core::state::RunState;
use dungeon_core::outfit::Outfit;
use dungeon_core::world::World;
use rltk::{BaseMap, RandomNumberGenerator, SmallVec};

struct Walkable<'a> {
    map: &'a GameMap,
}

impl<'a> BaseMap for Walkable<'a> {
    fn is_opaque(&self, idx: usize) -> bool {
        self.map.is_opaque(idx)
    }

    fn get_available_exits(&self, idx: usize) -> SmallVec<[(usize, f32); 10]> {
        let mut exits = SmallVec::new();
        for e in self.map.get_available_exits(idx) {
            exits.push((e.idx, e.cost as f32 / 100.0));
        }
        exits
    }

    fn get_pathing_distance(&self, idx1: usize, idx2: usize) -> f32 {
        let w = self.map.width as usize;
        rltk::DistanceAlg::Pythagoras.distance2d(
            rltk::Point::new(idx1 % w, idx1 / w),
            rltk::Point::new(idx2 % w, idx2 / w),
        )
    }
}

fn a_star(map: &GameMap, from: usize, to: usize) -> NavigationPath {
    let found = rltk::a_star_search(from, to, &Walkable { map });
    NavigationPath { destination: found.destination, success: found.success, steps: found.steps }
}

fn no_way(_map: &GameMap, _from: usize, _to: usize) -> NavigationPath {
    NavigationPath { destination: 0, success: false, steps: Vec::new() }
}

fn lair(player_x: i32, player_y: i32) -> World {
    let mut map = GameMap::new(20, 15, 1);
    map.apply_room_to_map(&Rect::new(1, 1, 17, 12));
    let mut world = World::new(map, RandomNumberGenerator::seeded(3));
    let player = world.spawn(Outfit {
        position: Some(Position { x: player_x, y: player_y }),
        name: Some(Name { name: "Player".to_string() }),
        combat_stats: Some(CombatStats { max_hp: 30, hp: 30, attack: 5, defense: 2 }),
        ..Outfit::none()
    });
    world.player_entity = player;
    world.player_position = GridPoint { x: player_x, y: player_y };
    world.run_state = RunState::MonsterTurn;
    world
}

fn beast(world: &mut World, x: i32, y: i32, sees: Vec<GridPoint>) -> Entity {
    world.spawn(Outfit {
        position: Some(Position { x, y }),
        monster: Some(Monster {}),
        blocks_tile: Some(BlocksTile {}),
        fov: Some(FOV { visible_tiles: sees, range: 8, needs_update: false }),
        combat_stats: Some(CombatStats { max_hp: 16, hp: 16, attack: 4, defense: 1 }),
        ..Outfit::none()
    })
}

#[test]
fn confusion_wears_off_and_the_actor_stays_put() {
    let mut world = lair(3, 3);
    let m = beast(&mut world, 15, 10, Vec::new());
    world.is_confused.insert(&world.entities, m, IsConfused { turns: 1 });
    MapIndexingSystem {}.run(&mut world);
    MonsterAI {}.run(&mut world, &a_star);
    assert!(!world.is_confused.contains(&world.entities, m));
    assert_eq!(world.positions.get(&world.entities, m), Some(&Position { x: 15, y: 10 }));
    assert!(!world.wants_to_melee.contains(&world.entities, m));
    assert!(!world.fovs.get(&world.entities, m).unwrap().needs_update);
}

#[test]
fn confused_actor_skips_its_turn_even_next_to_the_player() {
    let mut world = lair(3, 3);
    let m = beast(&mut world, 4, 3, vec![GridPoint { x: 3, y: 3 }]);
    world.is_confused.insert(&world.entities, m, IsConfused { turns: 3 });
    assert_eq!(MonsterAI::decide(&mut world, m.id), Plan::Idle);
    assert_eq!(world.is_confused.get(&world.entities, m), Some(&IsConfused { turns: 2 }));
    assert!(!world.wants_to_melee.contains(&world.entities, m));
    assert_eq!(MonsterAI::decide(&mut world, m.id), Plan::Idle);
    assert_eq!(world.is_confused.get(&world.entities, m), Some(&IsConfused { turns: 1 }));
    // the turn on which the confusion wears off is lost too
    assert_eq!(MonsterAI::decide(&mut world, m.id), Plan::Idle);
    assert!(!world.is_confused.contains(&world.entities, m));
    assert!(!world.wants_to_melee.contains(&world.entities, m));
    assert_eq!(MonsterAI::decide(&mut world, m.id), Plan::Attack);
}

#[test]
fn actor_whose_confusion_ends_neither_attacks_nor_moves() {
    // next to the player
    let mut world = lair(3, 3);
    let m = beast(&mut world, 4, 3, vec![GridPoint { x: 3, y: 3 }]);
    world.is_confused.insert(&world.entities, m, IsConfused { turns: 1 });
    MapIndexingSystem {}.run(&mut world);
    let blocked = world.map.blocked_tiles.clone();
    MonsterAI {}.run(&mut world, &a_star);
    assert!(!world.is_confused.contains(&world.entities, m));
    assert!(!world.wants_to_melee.contains(&world.entities, m));
    assert_eq!(world.positions.get(&world.entities, m), Some(&Position { x: 4, y: 3 }));
    assert!(!world.fovs.get(&world.entities, m).unwrap().needs_update);
    assert_eq!(world.map.blocked_tiles, blocked);
    // in sight of the player, with a free way
    let mut world = lair(3, 3);
    let m = beast(&mut world, 8, 3, vec![GridPoint { x: 3, y: 3 }]);
    world.is_confused.insert(&world.entities, m, IsConfused { turns: 1 });
    MapIndexingSystem {}.run(&mut world);
    let blocked = world.map.blocked_tiles.clone();
    MonsterAI {}.run(&mut world, &a_star);
    assert!(!world.is_confused.contains(&world.entities, m));
    assert!(!world.wants_to_melee.contains(&world.entities, m));
    assert_eq!(world.positions.get(&world.entities, m), Some(&Position { x: 8, y: 3 }));
    assert!(!world.fovs.get(&world.entities, m).unwrap().needs_update);
    assert_eq!(world.map.blocked_tiles, blocked);
    // the turn after, it walks
    MonsterAI {}.run(&mut world, &a_star);
    assert_eq!(world.positions.get(&world.entities, m), Some(&Position { x: 7, y: 3 }));
}

#[test]
fn other_actors_act_while_one_is_confused() {
    let mut world = lair(3, 3);
    let dazed = beast(&mut world, 2, 3, Vec::new());
    let keen = beast(&mut world, 4, 4, Vec::new());
    world.is_confused.insert(&world.entities, dazed, IsConfused { turns: 5 });
    MonsterAI {}.run(&mut world, &no_way);
    assert!(!world.wants_to_melee.contains(&world.entities, dazed));
    assert_eq!(
        world.wants_to_melee.get(&world.entities, keen),
        Some(&WantsToMelee { target: world.player_entity })
    );
}

#[test]
fn actor_within_reach_attacks_and_does_not_move() {
    for (x, y) in [(4, 3), (4, 4), (3, 2), (2, 2), (3, 3)] {
        let mut world = lair(3, 3);
        let m = beast(&mut world, x, y, vec![GridPoint { x: 3, y: 3 }]);
        MonsterAI {}.run(&mut world, &a_star);
        assert_eq!(
            world.wants_to_melee.get(&world.entities, m),
            Some(&WantsToMelee { target: world.player_entity })
        );
        assert_eq!(world.positions.get(&world.entities, m), Some(&Position { x, y }));
    }
}

#[test]
fn actor_two_tiles_away_is_out_of_reach() {
    for (x, y) in [(5, 3), (3, 5), (5, 4), (1, 1)] {
        let mut world = lair(3, 3);
        let m = beast(&mut world, x, y, Vec::new());
        assert_eq!(MonsterAI::decide(&mut world, m.id), Plan::Idle);
        assert!(!world.wants_to_melee.contains(&world.entities, m));
    }
}

#[test]
fn actor_that_sees_the_player_walks_towards_it() {
    let mut world = lair(3, 3);
    let m = beast(&mut world, 8, 3, vec![GridPoint { x: 3, y: 3 }]);
    MapIndexingSystem {}.run(&mut world);
    let from = world.map.xy_idx(8, 3);
    assert!(world.map.blocked_tiles[from]);
    assert_eq!(
        MonsterAI::decide(&mut world, m.id),
        Plan::Seek { from, to: world.map.xy_idx(3, 3) }
    );
    MonsterAI {}.run(&mut world, &a_star);
    assert_eq!(world.positions.get(&world.entities, m), Some(&Position { x: 7, y: 3 }));
    assert!(!world.map.blocked_tiles[from]);
    assert!(world.map.blocked_tiles[world.map.xy_idx(7, 3)]);
    assert!(world.fovs.get(&world.entities, m).unwrap().needs_update);
    assert!(!world.wants_to_melee.contains(&world.entities, m));
}

#[test]
fn actor_that_does_not_see_the_player_stays() {
    let mut world = lair(3, 3);
    let m = beast(&mut world, 8, 3, vec![GridPoint { x: 4, y: 3 }]);
    MapIndexingSystem {}.run(&mut world);
    MonsterAI {}.run(&mut world, &a_star);
    assert_eq!(world.positions.get(&world.entities, m), Some(&Position { x: 8, y: 3 }));
    assert!(!world.fovs.get(&world.entities, m).unwrap().needs_update);
}

#[test]
fn pass_does_nothing_outside_the_monster_turn() {
    for phase in [RunState::PreRun, RunState::PlayerTurn, RunState::AwaitingInput] {
        let mut world = lair(3, 3);
        world.run_state = phase;
        let m = beast(&mut world, 4, 3, vec![GridPoint { x: 3, y: 3 }]);
        world.is_confused.insert(&world.entities, m, IsConfused { turns: 2 });
        MapIndexingSystem {}.run(&mut world);
        MonsterAI {}.run(&mut world, &a_star);
        assert_eq!(world.is_confused.get(&world.entities, m), Some(&IsConfused { turns: 2 }));
        assert!(!world.wants_to_melee.contains(&world.entities, m));
        assert_eq!(world.positions.get(&world.entities, m), Some(&Position { x: 4, y: 3 }));
    }
}

#[test]
fn follow_takes_the_second_tile_of_the_way() {
    let mut world = lair(3, 3);
    let m = beast(&mut world, 8, 3, Vec::new());
    MapIndexingSystem {}.run(&mut world);
    let here = world.map.xy_idx(8, 3);
    let there = world.map.xy_idx(9, 4);
    let path = NavigationPath { destination: 0, success: true, steps: vec![here, there, 0] };
    MonsterAI::follow(&mut world, m.id, &path);
    assert_eq!(world.positions.get(&world.entities, m), Some(&Position { x: 9, y: 4 }));
    assert!(!world.map.blocked_tiles[here]);
    assert!(world.map.blocked_tiles[there]);
}

#[test]
fn follow_ignores_a_way_that_offers_no_step() {
    let mut world = lair(3, 3);
    let m = beast(&mut world, 8, 3, Vec::new());
    MapIndexingSystem {}.run(&mut world);
    let here = world.map.xy_idx(8, 3);
    let blocked = world.map.blocked_tiles.clone();
    for path in [
        NavigationPath { destination: 0, success: false, steps: vec![here, here + 1] },
        NavigationPath { destination: 0, success: true, steps: vec![here] },
        NavigationPath { destination: 0, success: true, steps: vec![] },
        NavigationPath { destination: 0, success: true, steps: vec![here, 20 * 15] },
        NavigationPath { destination: 0, success: true, steps: vec![here, usize::MAX] },
    ] {
        MonsterAI::follow(&mut world, m.id, &path);
        assert_eq!(world.positions.get(&world.entities, m), Some(&Position { x: 8, y: 3 }));
        assert_eq!(world.map.blocked_tiles, blocked);
        assert!(!world.fovs.get(&world.entities, m).unwrap().needs_update);
    }
}

#[test]
fn later_actors_find_the_tiles_that_earlier_ones_took() {
    let mut world = lair(3, 3);
    let first = beast(&mut world, 6, 3, vec![GridPoint { x: 3, y: 3 }]);
    let second = beast(&mut world, 7, 3, vec![GridPoint { x: 3, y: 3 }]);
    MapIndexingSystem {}.run(&mut world);
    MonsterAI {}.run(&mut world, &a_star);
    let a = *world.positions.get(&world.entities, first).unwrap();
    let b = *world.positions.get(&world.entities, second).unwrap();
    assert_eq!(a, Position { x: 5, y: 3 });
    assert_ne!(a, b);
    assert_eq!(b, Position { x: 6, y: 3 });
}

#[test]
fn contains_point_finds_what_is_there() {
    let points = vec![GridPoint { x: 1, y: 2 }, GridPoint { x: 3, y: 4 }];
    assert!(contains_point(&points, GridPoint { x: 3, y: 4 }));
    assert!(!contains_point(&points, GridPoint { x: 4, y: 3 }));
    assert!(!contains_point(&Vec::new(), GridPoint { x: 0, y: 0 }));
}
