use dungeon_core::map::{Exit, GameMap, TileType, CARDINAL_COST, DIAGONAL_COST, MAP_HEIGHT, MAP_WIDTH};
use dungeon_core::map_builder::{MAX_ROOMS, MAX_SIZE, MIN_SIZE};
use dungeon_core::rect::{midpoint, Rect};
use rltk::{Algorithm2D, BaseMap, RandomNumberGenerator};

fn floor_count(map: &GameMap) -> usize {
    map.tiles.iter().filter(|t| **t == TileType::Floor).count()
}

fn reachable_from(map: &GameMap, start: usize) -> Vec<bool> {
    let mut seen = vec![false; map.tiles.len()];
    let mut stack = vec![start];
    seen[start] = true;
    while let Some(idx) = stack.pop() {
        let x = (idx % map.width as usize) as i32;
        let y = (idx / map.width as usize) as i32;
        for (dx, dy) in [(-1, 0), (1, 0), (0, -1), (0, 1)] {
            let (nx, ny) = (x + dx, y + dy);
            if map.is_idx_valid(nx, ny) {
                let n = map.xy_idx(nx, ny);
                if !seen[n] && map.tiles[n] == TileType::Floor {
                    seen[n] = true;
                    stack.push(n);
                }
            }
        }
    }
    seen
}

#[test]
fn budget_of_one_gives_one_room_and_no_corridor() {
    for seed in 0..20u64 {
        let mut rng = RandomNumberGenerator::seeded(seed);
        let map = GameMap::generate(1, 1, MIN_SIZE, MAX_SIZE, &mut rng);
        assert_eq!(map.rooms.len(), 1);
        let room = map.rooms[0];
        let area = ((room.x2 - room.x1 + 1) * (room.y2 - room.y1 + 1)) as usize;
        assert_eq!(floor_count(&map), area);
        for y in 0..map.height {
            for x in 0..map.width {
                let inside = room.x1 <= x && x <= room.x2 && room.y1 <= y && y <= room.y2;
                let tile = map.tiles[map.xy_idx(x, y)];
                assert_eq!(tile == TileType::Floor, inside);
            }
        }
    }
}

#[test]
fn budget_of_zero_gives_no_room() {
    let mut rng = RandomNumberGenerator::seeded(3);
    let map = GameMap::generate(1, 0, MIN_SIZE, MAX_SIZE, &mut rng);
    assert!(map.rooms.is_empty());
    assert_eq!(floor_count(&map), 0);
}

#[test]
fn generated_rooms_never_overlap() {
    for seed in 0..25u64 {
        let mut rng = RandomNumberGenerator::seeded(seed);
        let map = GameMap::generate(1, MAX_ROOMS, MIN_SIZE, MAX_SIZE, &mut rng);
        for i in 0..map.rooms.len() {
            for j in (i + 1)..map.rooms.len() {
                assert!(!map.rooms[i].intersect(&map.rooms[j]));
            }
        }
    }
}

#[test]
fn generated_start_room_centre_is_floor() {
    for seed in 0..25u64 {
        let mut rng = RandomNumberGenerator::seeded(seed);
        let map = GameMap::generate(1, MAX_ROOMS, MIN_SIZE, MAX_SIZE, &mut rng);
        let (x, y) = map.rooms[0].center();
        assert_eq!(map.tiles[map.xy_idx(x, y)], TileType::Floor);
    }
}

#[test]
fn every_generated_room_is_reachable_from_the_first() {
    for seed in 0..25u64 {
        let mut rng = RandomNumberGenerator::seeded(seed);
        let map = GameMap::generate(1, MAX_ROOMS, MIN_SIZE, MAX_SIZE, &mut rng);
        let (x, y) = map.rooms[0].center();
        let seen = reachable_from(&map, map.xy_idx(x, y));
        for room in map.rooms.iter() {
            for ry in room.y1..=room.y2 {
                for rx in room.x1..=room.x2 {
                    assert!(seen[map.xy_idx(rx, ry)]);
                }
            }
        }
        for (idx, tile) in map.tiles.iter().enumerate() {
            if *tile == TileType::Floor {
                assert!(seen[idx]);
            }
        }
    }
}

#[test]
fn generated_map_has_usual_size_and_clean_bookkeeping() {
    let mut rng = RandomNumberGenerator::seeded(11);
    let map = GameMap::generate(4, MAX_ROOMS, MIN_SIZE, MAX_SIZE, &mut rng);
    assert_eq!(map.width, MAP_WIDTH);
    assert_eq!(map.height, MAP_HEIGHT);
    assert_eq!(map.depth, 4);
    assert_eq!(map.tiles.len(), 80 * 43);
    assert!(map.revealed_tiles.iter().all(|b| !*b));
    assert!(map.currently_visible_tiles.iter().all(|b| !*b));
    assert!(map.blocked_tiles.iter().all(|b| !*b));
    assert!(map.tile_content.iter().all(|c| c.is_empty()));
    assert!(map.is_well_formed());
}

#[test]
fn generated_rooms_keep_the_border_and_the_size_limits() {
    for seed in 0..10u64 {
        let mut rng = RandomNumberGenerator::seeded(seed);
        let map = GameMap::generate(1, MAX_ROOMS, MIN_SIZE, MAX_SIZE, &mut rng);
        assert!(map.rooms.len() >= 1 && map.rooms.len() <= MAX_ROOMS as usize);
        for room in map.rooms.iter() {
            assert!(1 <= room.x1 && room.x2 <= MAP_WIDTH - 2);
            assert!(1 <= room.y1 && room.y2 <= MAP_HEIGHT - 2);
            assert!(MIN_SIZE <= room.x2 - room.x1 && room.x2 - room.x1 < MAX_SIZE);
            assert!(MIN_SIZE <= room.y2 - room.y1 && room.y2 - room.y1 < MAX_SIZE);
        }
    }
}

#[test]
fn the_dice_place_rooms_in_different_spots() {
    let mut rng = RandomNumberGenerator::seeded(5);
    let map = GameMap::generate(1, MAX_ROOMS, MIN_SIZE, MAX_SIZE, &mut rng);
    assert!(map.rooms.len() > 1);
    let first = map.rooms[0];
    assert!(map.rooms.iter().any(|r| r.x1 != first.x1 || r.y1 != first.y1));
}

#[test]
fn map_with_rooms_and_corridors_builds_a_level() {
    let map = GameMap::map_with_rooms_and_corridors(2);
    assert_eq!(map.depth, 2);
    assert!(!map.rooms.is_empty());
    assert!(map.rooms.len() <= MAX_ROOMS as usize);
}

#[test]
fn place_room_refuses_overlap_and_border() {
    let mut map = GameMap::new(20, 20, 1);
    assert!(map.place_room(Rect::new(2, 2, 3, 3), true));
    let before = map.tiles.clone();
    assert!(!map.place_room(Rect::new(5, 5, 3, 3), true));
    assert!(!map.place_room(Rect::new(0, 8, 3, 3), true));
    assert!(!map.place_room(Rect::new(15, 15, 4, 2), true));
    assert_eq!(map.tiles, before);
    assert_eq!(map.rooms.len(), 1);
}

#[test]
fn place_room_carves_the_corridor_in_the_asked_order() {
    let mut a = GameMap::new(20, 20, 1);
    a.place_room(Rect::new(2, 2, 2, 2), true);
    a.place_room(Rect::new(10, 10, 2, 2), true);
    // new centre (11, 11), old centre (3, 3): along row 11, then column 3
    assert_eq!(a.tiles[a.xy_idx(5, 11)], TileType::Floor);
    assert_eq!(a.tiles[a.xy_idx(3, 7)], TileType::Floor);
    assert_eq!(a.tiles[a.xy_idx(11, 7)], TileType::Wall);
    let mut b = GameMap::new(20, 20, 1);
    b.place_room(Rect::new(2, 2, 2, 2), false);
    b.place_room(Rect::new(10, 10, 2, 2), false);
    // along column 11, then row 3
    assert_eq!(b.tiles[b.xy_idx(11, 7)], TileType::Floor);
    assert_eq!(b.tiles[b.xy_idx(7, 3)], TileType::Floor);
    assert_eq!(b.tiles[b.xy_idx(3, 7)], TileType::Wall);
}

#[test]
fn rect_new_intersect_center() {
    let r = Rect::new(2, 3, 4, 6);
    assert_eq!(r, Rect { x1: 2, x2: 6, y1: 3, y2: 9 });
    assert_eq!(r.center(), (4, 6));
    assert!(r.intersect(&Rect::new(6, 9, 2, 2)));
    assert!(!r.intersect(&Rect::new(7, 3, 2, 2)));
    assert!(!r.intersect(&Rect::new(2, 10, 2, 2)));
    assert!(r.intersect(&r));
}

#[test]
fn midpoint_rounds_towards_zero() {
    assert_eq!(midpoint(3, 4), 3);
    assert_eq!(midpoint(-3, -4), -3);
    assert_eq!(midpoint(-1, 0), 0);
    assert_eq!(midpoint(i32::MAX, i32::MAX), i32::MAX);
    assert_eq!(midpoint(i32::MIN, i32::MIN), i32::MIN);
    assert_eq!(midpoint(30, 0), 15);
}

#[test]
fn new_map_is_all_wall() {
    let map = GameMap::new(5, 4, 1);
    assert_eq!(map.tiles.len(), 20);
    assert!(map.tiles.iter().all(|t| *t == TileType::Wall));
    assert_eq!(map.xy_idx(2, 3), 17);
    let p = map.idx_point(17);
    assert_eq!((p.x, p.y), (2, 3));
    let d = map.dimensions();
    assert_eq!((d.x, d.y), (5, 4));
}

#[test]
fn tunnels_carve_between_the_ends_in_either_order() {
    let mut map = GameMap::new(10, 10, 1);
    map.apply_horizontal_tunnel(6, 2, 4);
    for x in 0..10 {
        let expected = if (2..=6).contains(&x) { TileType::Floor } else { TileType::Wall };
        assert_eq!(map.tiles[map.xy_idx(x, 4)], expected);
    }
    map.apply_vertical_tunnel(1, 3, 8);
    for y in 0..10 {
        let expected = if (1..=3).contains(&y) { TileType::Floor } else { TileType::Wall };
        assert_eq!(map.tiles[map.xy_idx(8, y)], expected);
    }
}

#[test]
fn tunnels_pass_over_what_lies_off_the_grid() {
    let mut map = GameMap::new(6, 6, 1);
    map.apply_horizontal_tunnel(-5, 50, 2);
    assert!((0..6).all(|x| map.tiles[map.xy_idx(x, 2)] == TileType::Floor));
    map.apply_horizontal_tunnel(0, 5, 9);
    map.apply_vertical_tunnel(0, 5, -1);
    let floors = map.tiles.iter().filter(|t| **t == TileType::Floor).count();
    assert_eq!(floors, 6);
}

#[test]
fn apply_room_to_map_carves_the_rectangle() {
    let mut map = GameMap::new(8, 8, 1);
    map.apply_room_to_map(&Rect::new(1, 2, 2, 3));
    let floors = map.tiles.iter().filter(|t| **t == TileType::Floor).count();
    assert_eq!(floors, 12);
    assert_eq!(map.tiles[map.xy_idx(3, 5)], TileType::Floor);
    assert_eq!(map.tiles[map.xy_idx(4, 5)], TileType::Wall);
}

#[test]
fn blocked_tiles_follow_walls() {
    let mut map = GameMap::new(4, 4, 1);
    map.set_tile(1, 1, TileType::Floor);
    map.populate_blocked_tiles();
    for (idx, tile) in map.tiles.iter().enumerate() {
        assert_eq!(map.blocked_tiles[idx], *tile == TileType::Wall);
    }
    assert!(map.is_opaque(0));
    assert!(!map.is_opaque(5));
    assert!(map.is_opaque(1000));
}

#[test]
fn exits_list_free_neighbours_with_costs() {
    let mut map = GameMap::new(5, 5, 1);
    map.apply_room_to_map(&Rect::new(1, 1, 2, 2));
    map.populate_blocked_tiles();
    let exits = map.get_available_exits(map.xy_idx(2, 2));
    let expected = vec![
        Exit { idx: map.xy_idx(1, 2), cost: CARDINAL_COST },
        Exit { idx: map.xy_idx(3, 2), cost: CARDINAL_COST },
        Exit { idx: map.xy_idx(2, 1), cost: CARDINAL_COST },
        Exit { idx: map.xy_idx(2, 3), cost: CARDINAL_COST },
        Exit { idx: map.xy_idx(1, 1), cost: DIAGONAL_COST },
        Exit { idx: map.xy_idx(1, 3), cost: DIAGONAL_COST },
        Exit { idx: map.xy_idx(3, 3), cost: DIAGONAL_COST },
        Exit { idx: map.xy_idx(3, 1), cost: DIAGONAL_COST },
    ];
    assert_eq!(exits, expected);
    let corner = map.get_available_exits(map.xy_idx(1, 1));
    assert_eq!(
        corner,
        vec![
            Exit { idx: map.xy_idx(2, 1), cost: 100 },
            Exit { idx: map.xy_idx(1, 2), cost: 100 },
            Exit { idx: map.xy_idx(2, 2), cost: 145 },
        ]
    );
}

#[test]
fn position_is_valid_only_inside_and_unblocked() {
    let mut map = GameMap::new(5, 5, 1);
    map.apply_room_to_map(&Rect::new(0, 0, 4, 4));
    map.populate_blocked_tiles();
    assert!(map.is_position_valid(1, 1));
    assert!(map.is_position_valid(4, 4));
    assert!(!map.is_position_valid(0, 2));
    assert!(!map.is_position_valid(2, 0));
    assert!(!map.is_position_valid(5, 2));
    assert!(!map.is_position_valid(-1, -1));
    map.blocked_tiles[12] = true;
    assert!(!map.is_position_valid(2, 2));
}

#[test]
fn copy_of_a_map_agrees_with_it() {
    let mut rng = RandomNumberGenerator::seeded(2);
    let map = GameMap::generate(3, MAX_ROOMS, MIN_SIZE, MAX_SIZE, &mut rng);
    let copy = map.copy();
    assert_eq!(copy.tiles, map.tiles);
    assert_eq!(copy.rooms, map.rooms);
    assert_eq!((copy.width, copy.height, copy.depth), (map.width, map.height, map.depth));
    assert_eq!(copy.revealed_tiles, map.revealed_tiles);
    assert_eq!(copy.tile_content, map.tile_content);
}

#[test]
fn malformed_map_is_recognised() {
    let mut map = GameMap::new(4, 4, 1);
    assert!(map.is_well_formed());
    map.tiles.pop();
    assert!(!map.is_well_formed());
    let mut other = GameMap::new(4, 4, 1);
    other.width = 0;
    assert!(!other.is_well_formed());
}
