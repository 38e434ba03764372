use dungeon_core::components::{GridPoint, Player, Position, FOV};
use dungeon_core::fov::FovSystem;
use dungeon_core::map::{GameMap, TileType};
use dungeon_core::rect::Rect;
use dungeon_core::outfit::Outfit;
use dungeon_core::world::World;
use rltk::RandomNumberGenerator;

fn open_room_world() -> World {
    let mut map = GameMap::new(20, 15, 1);
    map.apply_room_to_map(&Rect::new(1, 1, 17, 12));
    World::new(map, RandomNumberGenerator::seeded(1))
}

fn viewer(x: i32, y: i32, range: i32, player: bool) -> Outfit {
    Outfit {
        position: Some(Position { x, y }),
        fov: Some(FOV { visible_tiles: Vec::new(), range, needs_update: true }),
        player: if player { Some(Player {}) } else { None },
        ..Outfit::none()
    }
}

#[test]
fn sweep_sees_the_centre_and_its_neighbours() {
    let world = open_room_world();
    let seen = world.map.visible_points(GridPoint { x: 8, y: 7 }, 4);
    assert!(seen.contains(&GridPoint { x: 8, y: 7 }));
    assert!(seen.contains(&GridPoint { x: 9, y: 7 }));
    assert!(seen.contains(&GridPoint { x: 8, y: 5 }));
    assert!(!seen.contains(&GridPoint { x: 15, y: 7 }));
    assert!(seen.len() > 9);
}

#[test]
fn sweep_reports_no_point_twice() {
    let world = open_room_world();
    let seen = world.map.visible_points(GridPoint { x: 5, y: 5 }, 8);
    for (i, p) in seen.iter().enumerate() {
        assert!(!seen[i + 1..].contains(p));
    }
}

#[test]
fn sweep_stays_on_the_grid_near_the_edge() {
    let world = open_room_world();
    for (x, y) in [(1, 1), (18, 13), (1, 13), (18, 1), (0, 0), (19, 14)] {
        let seen = world.map.visible_points(GridPoint { x, y }, 8);
        assert!(!seen.is_empty());
        for p in seen.iter() {
            assert!(0 <= p.x && p.x < 20 && 0 <= p.y && p.y < 15);
        }
    }
}

#[test]
fn nothing_is_seen_from_off_the_grid() {
    let world = open_room_world();
    assert!(world.map.visible_points(GridPoint { x: -1, y: 3 }, 4).is_empty());
    assert!(world.map.visible_points(GridPoint { x: 3, y: 15 }, 4).is_empty());
    assert!(world.map.visible_points(GridPoint { x: 20, y: 3 }, 4).is_empty());
}

#[test]
fn a_range_beyond_the_widest_sight_is_taken_as_the_widest() {
    let world = open_room_world();
    let mut widest = world.map.visible_points(GridPoint { x: 3, y: 3 }, 1024);
    widest.sort_by_key(|p| (p.x, p.y));
    assert!(widest.len() > 100);
    for range in [1025, 40000, i32::MAX, -1025, i32::MIN] {
        let mut seen = world.map.visible_points(GridPoint { x: 3, y: 3 }, range);
        seen.sort_by_key(|p| (p.x, p.y));
        assert_eq!(seen, widest);
    }
    let mut near = world.map.visible_points(GridPoint { x: 3, y: 3 }, 2);
    near.sort_by_key(|p| (p.x, p.y));
    assert!(near.len() < widest.len());
}

#[test]
fn walls_stop_the_sweep() {
    let mut map = GameMap::new(12, 7, 1);
    map.apply_room_to_map(&Rect::new(1, 1, 9, 4));
    for y in 1..=5 {
        map.set_tile(5, y, TileType::Wall);
    }
    let seen = map.visible_points(GridPoint { x: 2, y: 3 }, 8);
    assert!(seen.contains(&GridPoint { x: 4, y: 3 }));
    assert!(seen.contains(&GridPoint { x: 5, y: 3 }));
    assert!(!seen.contains(&GridPoint { x: 7, y: 3 }));
    assert!(!seen.contains(&GridPoint { x: 9, y: 2 }));
}

#[test]
fn pass_updates_the_view_and_clears_the_request() {
    let mut world = open_room_world();
    let e = world.spawn(viewer(5, 5, 3, false));
    FovSystem {}.run(&mut world);
    let fov = world.fovs.get(&world.entities, e).unwrap();
    assert!(!fov.needs_update);
    assert_eq!(fov.range, 3);
    assert!(fov.visible_tiles.contains(&GridPoint { x: 5, y: 5 }));
    let mut expected = world.map.visible_points(GridPoint { x: 5, y: 5 }, 3);
    let mut got = fov.visible_tiles.clone();
    expected.sort_by_key(|p| (p.x, p.y));
    got.sort_by_key(|p| (p.x, p.y));
    assert_eq!(got, expected);
}

#[test]
fn pass_leaves_alone_a_view_that_does_not_ask() {
    let mut world = open_room_world();
    let mut outfit = viewer(5, 5, 3, true);
    outfit.fov = Some(FOV { visible_tiles: vec![GridPoint { x: 9, y: 9 }], range: 3, needs_update: false });
    let e = world.spawn(outfit);
    FovSystem {}.run(&mut world);
    let fov = world.fovs.get(&world.entities, e).unwrap();
    assert_eq!(fov.visible_tiles, vec![GridPoint { x: 9, y: 9 }]);
    assert!(world.map.revealed_tiles.iter().all(|b| !*b));
}

#[test]
fn only_a_player_marks_the_map() {
    let mut world = open_room_world();
    world.spawn(viewer(5, 5, 3, false));
    FovSystem {}.run(&mut world);
    assert!(world.map.revealed_tiles.iter().all(|b| !*b));
    assert!(world.map.currently_visible_tiles.iter().all(|b| !*b));
}

#[test]
fn player_view_sets_visible_and_revealed() {
    let mut world = open_room_world();
    let e = world.spawn(viewer(5, 5, 3, true));
    FovSystem {}.run(&mut world);
    let seen = world.fovs.get(&world.entities, e).unwrap().visible_tiles.clone();
    for idx in 0..world.map.tiles.len() {
        let p = world.map.idx_point(idx);
        let is_seen = seen.contains(&p);
        assert_eq!(world.map.currently_visible_tiles[idx], is_seen);
        assert_eq!(world.map.revealed_tiles[idx], is_seen);
    }
}

#[test]
fn revealed_tiles_are_never_taken_back() {
    let mut world = open_room_world();
    let e = world.spawn(viewer(3, 3, 3, true));
    FovSystem {}.run(&mut world);
    let first = world.map.revealed_tiles.clone();
    let first_visible = world.map.currently_visible_tiles.clone();
    world.positions.insert(&world.entities, e, Position { x: 15, y: 10 });
    world.fovs.insert(&world.entities, e, FOV { visible_tiles: Vec::new(), range: 3, needs_update: true });
    FovSystem {}.run(&mut world);
    for idx in 0..first.len() {
        assert!(!first[idx] || world.map.revealed_tiles[idx]);
    }
    assert_ne!(world.map.currently_visible_tiles, first_visible);
    let here = world.map.xy_idx(3, 3);
    assert!(world.map.revealed_tiles[here]);
    assert!(!world.map.currently_visible_tiles[here]);
}

#[test]
fn viewer_off_the_grid_sees_nothing() {
    let mut world = open_room_world();
    let e = world.spawn(viewer(50, 50, 3, true));
    FovSystem {}.run(&mut world);
    let fov = world.fovs.get(&world.entities, e).unwrap();
    assert!(fov.visible_tiles.is_empty());
    assert!(!fov.needs_update);
}

#[test]
fn show_only_and_mask_agree_with_the_points() {
    let mut map = GameMap::new(6, 5, 1);
    let points = vec![GridPoint { x: 1, y: 1 }, GridPoint { x: 4, y: 3 }];
    let mask = map.mask_of(&points);
    map.revealed_tiles[0] = true;
    map.currently_visible_tiles[2] = true;
    map.show_only(&points);
    for idx in 0..30 {
        let on = idx == 7 || idx == 22;
        assert_eq!(mask[idx], on);
        assert_eq!(map.currently_visible_tiles[idx], on);
        assert_eq!(map.revealed_tiles[idx], on || idx == 0);
    }
}

#[test]
fn keep_on_grid_drops_what_lies_off_the_grid() {
    let map = GameMap::new(4, 3, 1);
    let found = vec![
        GridPoint { x: 3, y: 2 },
        GridPoint { x: 4, y: 0 },
        GridPoint { x: 0, y: 0 },
        GridPoint { x: -1, y: 1 },
        GridPoint { x: 1, y: 3 },
        GridPoint { x: 0, y: 0 },
    ];
    assert_eq!(
        map.keep_on_grid(&found),
        vec![GridPoint { x: 3, y: 2 }, GridPoint { x: 0, y: 0 }, GridPoint { x: 0, y: 0 }]
    );
    assert!(map.keep_on_grid(&Vec::new()).is_empty());
}

#[test]
fn look_takes_the_points_as_the_view() {
    let mut world = open_room_world();
    let e = world.spawn(viewer(5, 5, 3, true));
    let other = world.spawn(viewer(6, 6, 4, false));
    let points = vec![GridPoint { x: 2, y: 2 }, GridPoint { x: 9, y: 3 }];
    FovSystem::look(&mut world, e.id, points.clone());
    let fov = world.fovs.get(&world.entities, e).unwrap();
    assert_eq!(fov.visible_tiles, points);
    assert_eq!(fov.range, 3);
    assert!(!fov.needs_update);
    let shown: Vec<usize> =
        (0..world.map.tiles.len()).filter(|i| world.map.currently_visible_tiles[*i]).collect();
    assert_eq!(shown, vec![world.map.xy_idx(2, 2), world.map.xy_idx(9, 3)]);
    assert_eq!(world.map.revealed_tiles, world.map.currently_visible_tiles);
    FovSystem::look(&mut world, other.id, vec![GridPoint { x: 1, y: 1 }]);
    assert!(!world.map.revealed_tiles[world.map.xy_idx(1, 1)]);
    assert!(world.fovs.get(&world.entities, other).unwrap().visible_tiles.len() == 1);
    FovSystem::look(&mut world, 40, vec![GridPoint { x: 1, y: 1 }]);
    assert!(!world.fovs.has_slot(40));
}
