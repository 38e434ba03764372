use dungeon_core::components::{
    AreaOfEffect, CausesConfusion, Color, CombatStats, Consumable, DefenseBonus, EquipmentSlot,
    Equippable, GivesMovementSpeed, InflictsDamage, MeleePowerBonus, Position, ProvidesHealing,
    Ranged, Renderable,
};
use dungeon_core::map::GameMap;
use dungeon_core::random_table::{RandomEntry, RandomTable, SpawnKind};
use dungeon_core::rect::Rect;
use dungeon_core::spawner::{
    confusion_spell, dagger, dash_boots, fireball_spell, goblin, health_potion, is_taken, longsword,
    magic_missile_scroll, monster, orc, plan_spawns, player, room_table, shield, spawn_all,
    spawn_entities_in_room, spawn_kind, tower_shield, SpawnPoint,
};
use dungeon_core::world::World;
use rltk::RandomNumberGenerator;

fn empty_world() -> World {
    World::new(GameMap::new(30, 20, 1), RandomNumberGenerator::seeded(8))
}

const BLACK: Color = Color { r: 0, g: 0, b: 0 };

#[test]
fn player_is_created_with_its_outfit() {
    let mut world = empty_world();
    let e = player(&mut world, 4, 5);
    assert!(world.entities.is_entity_alive(e));
    assert_eq!(world.positions.get(&world.entities, e), Some(&Position { x: 4, y: 5 }));
    assert_eq!(
        world.renderables.get(&world.entities, e),
        Some(&Renderable {
            symbol: 111,
            foreground: Color { r: 160, g: 32, b: 240 },
            background: BLACK,
            render_order: 0
        })
    );
    assert!(world.players.contains(&world.entities, e));
    let fov = world.fovs.get(&world.entities, e).unwrap();
    assert!(fov.visible_tiles.is_empty() && fov.range == 8 && fov.needs_update);
    assert_eq!(world.names.get(&world.entities, e).unwrap().name, "Player");
    assert_eq!(
        world.combat_stats.get(&world.entities, e),
        Some(&CombatStats { max_hp: 30, hp: 30, attack: 5, defense: 2 })
    );
    assert!(world.serialize_me.contains(&world.entities, e));
    assert!(!world.monsters.contains(&world.entities, e));
    assert!(!world.blocks_tile.contains(&world.entities, e));
    assert!(!world.items.contains(&world.entities, e));
}

#[test]
fn monster_is_created_with_its_outfit() {
    let mut world = empty_world();
    let e = monster(&mut world, 7, 8, 42, "Rat");
    assert_eq!(world.positions.get(&world.entities, e), Some(&Position { x: 7, y: 8 }));
    assert_eq!(
        world.renderables.get(&world.entities, e),
        Some(&Renderable {
            symbol: 42,
            foreground: Color { r: 255, g: 0, b: 0 },
            background: BLACK,
            render_order: 1
        })
    );
    assert!(world.monsters.contains(&world.entities, e));
    assert!(world.blocks_tile.contains(&world.entities, e));
    assert_eq!(world.names.get(&world.entities, e).unwrap().name, "Rat");
    assert_eq!(
        world.combat_stats.get(&world.entities, e),
        Some(&CombatStats { max_hp: 16, hp: 16, attack: 4, defense: 1 })
    );
    assert!(world.serialize_me.contains(&world.entities, e));
    assert!(!world.players.contains(&world.entities, e));
}

#[test]
fn orc_and_goblin_get_their_glyphs_and_names() {
    let mut world = empty_world();
    orc(&mut world, 1, 1);
    goblin(&mut world, 2, 2);
    assert_eq!(world.renderables.slot(0).unwrap().symbol, 103);
    assert_eq!(world.names.slot(0).unwrap().name, "Goblin");
    assert_eq!(world.renderables.slot(1).unwrap().symbol, 111);
    assert_eq!(world.names.slot(1).unwrap().name, "Orc");
}

fn item_basics(world: &World, slot: usize, x: i32, y: i32, symbol: u16, fg: Color, name: &str) {
    assert_eq!(world.positions.slot(slot), Some(&Position { x, y }));
    assert_eq!(
        world.renderables.slot(slot),
        Some(&Renderable { symbol, foreground: fg, background: BLACK, render_order: 2 })
    );
    assert_eq!(world.names.slot(slot).unwrap().name, name);
    assert!(world.items.has_slot(slot));
    assert!(world.serialize_me.has_slot(slot));
    assert!(!world.combat_stats.has_slot(slot));
    assert!(!world.blocks_tile.has_slot(slot));
    assert!(!world.in_backpack.has_slot(slot));
}

#[test]
fn potions_and_scrolls_are_created_with_their_outfits() {
    let mut world = empty_world();
    health_potion(&mut world, 1, 2);
    magic_missile_scroll(&mut world, 3, 4);
    fireball_spell(&mut world, 5, 6);
    confusion_spell(&mut world, 7, 8);
    dash_boots(&mut world, 9, 10);
    item_basics(&world, 0, 1, 2, 173, Color { r: 255, g: 0, b: 255 }, "Health Potion");
    assert_eq!(world.provides_healing.slot(0), Some(&ProvidesHealing { heal_amount: 8 }));
    assert_eq!(world.consumables.slot(0), Some(&Consumable { charges: 3 }));
    assert!(!world.ranged.has_slot(0));
    item_basics(&world, 1, 3, 4, 41, Color { r: 0, g: 255, b: 255 }, "Magic Missile Scroll");
    assert_eq!(world.consumables.slot(1), Some(&Consumable { charges: 1 }));
    assert_eq!(world.ranged.slot(1), Some(&Ranged { range: 6 }));
    assert_eq!(world.inflicts_damage.slot(1), Some(&InflictsDamage { damage: 8 }));
    assert!(!world.area_of_effect.has_slot(1));
    item_basics(&world, 2, 5, 6, 41, Color { r: 255, g: 165, b: 0 }, "Fireball spell");
    assert_eq!(world.inflicts_damage.slot(2), Some(&InflictsDamage { damage: 20 }));
    assert_eq!(world.area_of_effect.slot(2), Some(&AreaOfEffect { radius: 3 }));
    assert_eq!(world.ranged.slot(2), Some(&Ranged { range: 6 }));
    item_basics(&world, 3, 7, 8, 41, Color { r: 255, g: 192, b: 203 }, "Confusion spell");
    assert_eq!(world.causes_confusion.slot(3), Some(&CausesConfusion { turns: 3 }));
    assert!(!world.inflicts_damage.has_slot(3));
    item_basics(&world, 4, 9, 10, 98, Color { r: 255, g: 64, b: 64 }, "Dash boots");
    assert_eq!(
        world.gives_movement_speed.slot(4),
        Some(&GivesMovementSpeed { speed_modifier: 2, turns: 3 })
    );
    assert_eq!(world.consumables.slot(4), Some(&Consumable { charges: 1 }));
}

#[test]
fn weapons_and_shields_are_created_with_their_outfits() {
    let mut world = empty_world();
    dagger(&mut world, 1, 1);
    shield(&mut world, 2, 2);
    longsword(&mut world, 3, 3);
    tower_shield(&mut world, 4, 4);
    item_basics(&world, 0, 1, 1, 47, Color { r: 0, g: 255, b: 255 }, "Dagger");
    assert_eq!(world.equippable.slot(0), Some(&Equippable { slot: EquipmentSlot::Melee }));
    assert_eq!(world.melee_power_bonus.slot(0), Some(&MeleePowerBonus { power: 2 }));
    item_basics(&world, 1, 2, 2, 40, Color { r: 0, g: 255, b: 255 }, "Shield");
    assert_eq!(world.equippable.slot(1), Some(&Equippable { slot: EquipmentSlot::Shield }));
    assert_eq!(world.defense_bonus.slot(1), Some(&DefenseBonus { defense: 1 }));
    item_basics(&world, 2, 3, 3, 47, Color { r: 255, g: 255, b: 0 }, "Longsword");
    assert_eq!(world.melee_power_bonus.slot(2), Some(&MeleePowerBonus { power: 4 }));
    item_basics(&world, 3, 4, 4, 40, Color { r: 255, g: 255, b: 0 }, "Tower Shield");
    assert_eq!(world.defense_bonus.slot(3), Some(&DefenseBonus { defense: 3 }));
    assert!(!world.consumables.has_slot(0));
}

#[test]
fn spawn_kind_creates_the_kind_asked_for() {
    let kinds = [
        (SpawnKind::Goblin, "Orc"),
        (SpawnKind::Orc, "Goblin"),
        (SpawnKind::HealthPotion, "Health Potion"),
        (SpawnKind::FireballScroll, "Fireball spell"),
        (SpawnKind::ConfusionScroll, "Confusion spell"),
        (SpawnKind::MagicMissileScroll, "Magic Missile Scroll"),
        (SpawnKind::Dagger, "Dagger"),
        (SpawnKind::Shield, "Shield"),
        (SpawnKind::TowerShield, "Tower Shield"),
        (SpawnKind::Longsword, "Longsword"),
    ];
    let mut world = empty_world();
    for (i, (kind, name)) in kinds.iter().enumerate() {
        spawn_kind(&mut world, *kind, i as i32, 1);
        assert_eq!(world.names.slot(i).unwrap().name, *name);
        assert_eq!(world.positions.slot(i), Some(&Position { x: i as i32, y: 1 }));
        assert_eq!(world.monsters.has_slot(i), i < 2);
        assert_eq!(world.items.has_slot(i), i >= 2);
    }
    assert_eq!(world.entities.len(), kinds.len());
}

#[test]
fn room_table_grows_with_the_depth() {
    let shallow = room_table(1);
    assert_eq!(
        shallow.entries,
        vec![
            RandomEntry { kind: SpawnKind::Goblin, weight: 10 },
            RandomEntry { kind: SpawnKind::Orc, weight: 2 },
            RandomEntry { kind: SpawnKind::HealthPotion, weight: 7 },
            RandomEntry { kind: SpawnKind::FireballScroll, weight: 3 },
            RandomEntry { kind: SpawnKind::ConfusionScroll, weight: 3 },
            RandomEntry { kind: SpawnKind::MagicMissileScroll, weight: 4 },
            RandomEntry { kind: SpawnKind::Dagger, weight: 3 },
            RandomEntry { kind: SpawnKind::Shield, weight: 3 },
        ]
    );
    assert_eq!(shallow.total_weight, 35);
    let deep = room_table(4);
    assert_eq!(deep.entries.len(), 10);
    assert_eq!(deep.entries[1], RandomEntry { kind: SpawnKind::Orc, weight: 5 });
    assert_eq!(deep.entries[8], RandomEntry { kind: SpawnKind::TowerShield, weight: 3 });
    assert_eq!(deep.entries[9], RandomEntry { kind: SpawnKind::Longsword, weight: 3 });
    assert_eq!(deep.total_weight, 10 + 5 + 7 + 6 + 6 + 4 + 3 + 3 + 3 + 3);
    let odd = room_table(i32::MIN);
    assert_eq!(odd.total_weight, 27);
    let huge = room_table(i32::MAX);
    assert!(huge.total_weight > 0);
}

#[test]
fn table_picks_by_cumulated_weight() {
    let table = RandomTable::new()
        .add(SpawnKind::Goblin, 2)
        .add(SpawnKind::Orc, 0)
        .add(SpawnKind::Dagger, -4)
        .add(SpawnKind::Shield, 3);
    assert_eq!(table.entries.len(), 2);
    assert_eq!(table.total_weight, 5);
    assert_eq!(table.pick(0), None);
    assert_eq!(table.pick(1), Some(SpawnKind::Goblin));
    assert_eq!(table.pick(2), Some(SpawnKind::Goblin));
    assert_eq!(table.pick(3), Some(SpawnKind::Shield));
    assert_eq!(table.pick(5), Some(SpawnKind::Shield));
    assert_eq!(table.pick(6), None);
    assert_eq!(table.pick(-1), None);
}

#[test]
fn table_refuses_a_weight_that_overflows_the_total() {
    let table = RandomTable::new().add(SpawnKind::Goblin, i32::MAX).add(SpawnKind::Orc, 1);
    assert_eq!(table.entries.len(), 1);
    assert_eq!(table.total_weight, i32::MAX);
    assert_eq!(table.pick(i32::MAX), Some(SpawnKind::Goblin));
}

#[test]
fn table_rolls_only_what_it_holds_and_all_of_it() {
    let table = RandomTable::new().add(SpawnKind::Goblin, 1).add(SpawnKind::Shield, 1);
    let mut rng = RandomNumberGenerator::seeded(17);
    let mut goblins = 0;
    let mut shields = 0;
    for _ in 0..200 {
        match table.roll(&mut rng) {
            Some(SpawnKind::Goblin) => goblins += 1,
            Some(SpawnKind::Shield) => shields += 1,
            other => panic!("unexpected roll {:?}", other),
        }
    }
    assert!(goblins > 0 && shields > 0);
    assert_eq!(RandomTable::new().roll(&mut rng), None);
}

#[test]
fn planned_spawns_lie_in_the_room_at_places_of_their_own() {
    let room = Rect::new(3, 4, 6, 7);
    let mut most = 0;
    for seed in 0..40u64 {
        let mut rng = RandomNumberGenerator::seeded(seed);
        let points = plan_spawns(&mut rng, &room, 2);
        assert!(points.len() <= 5);
        most = most.max(points.len());
        for (i, p) in points.iter().enumerate() {
            assert!(room.x1 < p.x && p.x <= room.x2);
            assert!(room.y1 < p.y && p.y <= room.y2);
            assert!(p.kind.is_some());
            for q in points[i + 1..].iter() {
                assert!(p.x != q.x || p.y != q.y);
            }
        }
    }
    assert!(most >= 2);
}

#[test]
fn shallow_levels_may_stay_empty_and_deep_ones_fill_up() {
    let room = Rect::new(3, 4, 6, 7);
    let mut rng = RandomNumberGenerator::seeded(1);
    let mut empty = 0;
    for _ in 0..40 {
        if plan_spawns(&mut rng, &room, 1).is_empty() {
            empty += 1;
        }
    }
    assert!(empty > 0);
    let deep = plan_spawns(&mut rng, &room, 20);
    assert!(deep.len() >= 17);
    // a room of one tile offers a single place
    let cell = plan_spawns(&mut rng, &Rect::new(5, 5, 0, 0), 20);
    assert_eq!(cell.len(), 1);
    assert_eq!((cell[0].x, cell[0].y), (5, 5));
}

#[test]
fn spawn_all_creates_the_points_in_order() {
    let mut world = empty_world();
    let points = vec![
        SpawnPoint { x: 2, y: 3, kind: Some(SpawnKind::Dagger) },
        SpawnPoint { x: 9, y: 9, kind: None },
        SpawnPoint { x: 4, y: 5, kind: Some(SpawnKind::Goblin) },
    ];
    spawn_all(&mut world, &points);
    assert_eq!(world.entities.len(), 2);
    assert_eq!(world.names.slot(0).unwrap().name, "Dagger");
    assert_eq!(world.positions.slot(1), Some(&Position { x: 4, y: 5 }));
    assert!(world.monsters.has_slot(1));
}

#[test]
fn rooms_are_populated_inside_their_walls() {
    let mut world = empty_world();
    let room = Rect::new(10, 5, 8, 6);
    for _ in 0..10 {
        spawn_entities_in_room(&mut world, &room, 3);
    }
    assert!(world.entities.len() > 0);
    for slot in 0..world.entities.len() {
        let p = world.positions.slot(slot).unwrap();
        assert!(room.x1 < p.x && p.x <= room.x2 && room.y1 < p.y && p.y <= room.y2);
        assert!(world.names.has_slot(slot));
        assert!(world.monsters.has_slot(slot) != world.items.has_slot(slot));
    }
}

#[test]
fn from_the_fourth_level_on_no_room_stays_empty() {
    let room = Rect::new(3, 4, 6, 7);
    for seed in 0..60u64 {
        let mut rng = RandomNumberGenerator::seeded(seed);
        for depth in [4, 5, 9] {
            let points = plan_spawns(&mut rng, &room, depth);
            assert!(!points.is_empty());
            assert!(points.len() as i32 <= 7 + depth - 4);
        }
        assert!(plan_spawns(&mut rng, &room, -3).is_empty());
        assert!(plan_spawns(&mut rng, &room, i32::MIN).is_empty());
    }
}

#[test]
fn a_room_of_one_row_offers_only_that_row() {
    let room = Rect::new(2, 9, 5, 0);
    let mut rng = RandomNumberGenerator::seeded(6);
    let points = plan_spawns(&mut rng, &room, 8);
    assert!(!points.is_empty());
    assert!(points.len() <= 5);
    for p in points.iter() {
        assert_eq!(p.y, 9);
        assert!(2 < p.x && p.x <= 7);
    }
}

#[test]
fn a_place_is_taken_by_the_point_that_lies_on_it() {
    let points = vec![
        SpawnPoint { x: 2, y: 3, kind: Some(SpawnKind::Dagger) },
        SpawnPoint { x: 4, y: 5, kind: None },
    ];
    assert!(is_taken(&points, 2, 3));
    assert!(is_taken(&points, 4, 5));
    assert!(!is_taken(&points, 2, 5));
    assert!(!is_taken(&points, 3, 2));
    assert!(!is_taken(&Vec::new(), 2, 3));
}
