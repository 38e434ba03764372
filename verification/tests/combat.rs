use dungeon_core::components::{
    CombatStats, DefenseBonus, EquipmentSlot, Equipped, MeleePowerBonus, Name, Player,
    SuffersDamage, WantsToMelee,
};
use dungeon_core::damage_system::{delete_dead_entities, sum, DamageSystem};
use dungeon_core::entity::Entity;
use dungeon_core::gamelog::LogEntry;
use dungeon_core::map::GameMap;
use dungeon_core::melee_combat_system::{attack_bonus, cover_bonus, MeleeCombatSystem};
use dungeon_core::state::RunState;
use dungeon_core::outfit::Outfit;
use dungeon_core::world::World;
use rltk::RandomNumberGenerator;

fn arena() -> World {
    World::new(GameMap::new(10, 10, 1), RandomNumberGenerator::seeded(7))
}

fn fighter(world: &mut World, name: &str, hp: i32, attack: i32, defense: i32) -> Entity {
    world.spawn(Outfit {
        name: Some(Name { name: name.to_string() }),
        combat_stats: Some(CombatStats { max_hp: 30, hp, attack, defense }),
        ..Outfit::none()
    })
}

fn wear(world: &mut World, owner: Entity, slot: EquipmentSlot, power: Option<i32>, defense: Option<i32>) -> Entity {
    world.spawn(Outfit {
        equipped: Some(Equipped { owner, slot }),
        melee_power_bonus: power.map(|p| MeleePowerBonus { power: p }),
        defense_bonus: defense.map(|d| DefenseBonus { defense: d }),
        ..Outfit::none()
    })
}

fn queue_of(world: &World, e: Entity) -> Vec<i32> {
    match world.suffers_damage.get(&world.entities, e) {
        Some(d) => d.amount.clone(),
        None => Vec::new(),
    }
}

#[test]
fn melee_deals_attack_minus_defense() {
    let mut world = arena();
    let attacker = fighter(&mut world, "attacker", 30, 5, 2);
    let defender = fighter(&mut world, "defender", 10, 4, 1);
    world.wants_to_melee.insert(&world.entities, attacker, WantsToMelee { target: defender });
    assert_eq!(MeleeCombatSystem::blow(&world, attacker.id), Some((defender, 4)));
    MeleeCombatSystem {}.run(&mut world);
    assert_eq!(queue_of(&world, defender), vec![4]);
    DamageSystem {}.run(&mut world);
    assert_eq!(world.combat_stats.get(&world.entities, defender).unwrap().hp, 6);
    assert_eq!(world.combat_stats.get(&world.entities, attacker).unwrap().hp, 30);
    assert_eq!(
        world.gamelog.entries.last(),
        Some(&LogEntry::Hit {
            attacker: Some("attacker".to_string()),
            target: Some("defender".to_string()),
            damage: 4
        })
    );
}

#[test]
fn bonuses_of_worn_items_count_on_both_sides() {
    let mut world = arena();
    let attacker = fighter(&mut world, "a", 30, 5, 2);
    let defender = fighter(&mut world, "d", 10, 4, 1);
    wear(&mut world, attacker, EquipmentSlot::Melee, Some(4), None);
    wear(&mut world, attacker, EquipmentSlot::Shield, Some(1), Some(9));
    wear(&mut world, defender, EquipmentSlot::Shield, None, Some(3));
    wear(&mut world, defender, EquipmentSlot::Melee, Some(7), None);
    assert_eq!(attack_bonus(&world, attacker), 5);
    assert_eq!(cover_bonus(&world, defender), 3);
    assert_eq!(cover_bonus(&world, attacker), 9);
    world.wants_to_melee.insert(&world.entities, attacker, WantsToMelee { target: defender });
    // (5 + 5) - (1 + 3)
    assert_eq!(MeleeCombatSystem::blow(&world, attacker.id), Some((defender, 6)));
}

#[test]
fn blow_that_does_not_exceed_defense_does_no_damage() {
    let mut world = arena();
    let attacker = fighter(&mut world, "weak", 30, 1, 0);
    let defender = fighter(&mut world, "tough", 10, 4, 5);
    world.wants_to_melee.insert(&world.entities, attacker, WantsToMelee { target: defender });
    let before = world.gamelog.entries.len();
    MeleeCombatSystem {}.run(&mut world);
    assert!(queue_of(&world, defender).is_empty());
    assert!(!world.suffers_damage.contains(&world.entities, defender));
    assert_eq!(world.gamelog.entries.len(), before + 1);
    assert_eq!(
        world.gamelog.entries[before],
        LogEntry::CouldNotDamage {
            attacker: Some("weak".to_string()),
            target: Some("tough".to_string())
        }
    );
}

#[test]
fn melee_pass_leaves_no_intent_behind() {
    let mut world = arena();
    let a = fighter(&mut world, "a", 30, 5, 2);
    let b = fighter(&mut world, "b", 30, 5, 2);
    let c = fighter(&mut world, "c", 30, 5, 2);
    world.wants_to_melee.insert(&world.entities, a, WantsToMelee { target: b });
    world.wants_to_melee.insert(&world.entities, b, WantsToMelee { target: c });
    world.wants_to_melee.insert(&world.entities, c, WantsToMelee { target: a });
    MeleeCombatSystem {}.run(&mut world);
    for e in [a, b, c] {
        assert!(!world.wants_to_melee.contains(&world.entities, e));
    }
    assert_eq!(world.wants_to_melee.len(), 0);
}

#[test]
fn hits_of_one_turn_pile_up_in_slot_order() {
    let mut world = arena();
    let a = fighter(&mut world, "a", 30, 6, 0);
    let victim = fighter(&mut world, "v", 30, 0, 1);
    let b = fighter(&mut world, "b", 30, 4, 0);
    world.suffers_damage.insert(&world.entities, victim, SuffersDamage { amount: vec![2] });
    world.wants_to_melee.insert(&world.entities, b, WantsToMelee { target: victim });
    world.wants_to_melee.insert(&world.entities, a, WantsToMelee { target: victim });
    MeleeCombatSystem {}.run(&mut world);
    assert_eq!(queue_of(&world, victim), vec![2, 5, 3]);
    DamageSystem {}.run(&mut world);
    assert_eq!(world.combat_stats.get(&world.entities, victim).unwrap().hp, 20);
    assert_eq!(world.suffers_damage.len(), 0);
}

#[test]
fn attacker_without_hit_points_does_not_strike() {
    let mut world = arena();
    let dead = fighter(&mut world, "dead", 0, 9, 0);
    let target = fighter(&mut world, "t", 10, 0, 0);
    world.wants_to_melee.insert(&world.entities, dead, WantsToMelee { target });
    assert_eq!(MeleeCombatSystem::blow(&world, dead.id), None);
    let before = world.gamelog.entries.len();
    MeleeCombatSystem {}.run(&mut world);
    assert!(queue_of(&world, target).is_empty());
    assert_eq!(world.gamelog.entries.len(), before);
}

#[test]
fn target_without_hit_points_or_statistics_is_not_struck() {
    let mut world = arena();
    let a = fighter(&mut world, "a", 10, 9, 0);
    let fallen = fighter(&mut world, "f", 0, 0, 0);
    let rock = world.spawn(Outfit { name: Some(Name { name: "rock".to_string() }), ..Outfit::none() });
    world.wants_to_melee.insert(&world.entities, a, WantsToMelee { target: fallen });
    assert_eq!(MeleeCombatSystem::blow(&world, a.id), None);
    world.wants_to_melee.insert(&world.entities, a, WantsToMelee { target: rock });
    assert_eq!(MeleeCombatSystem::blow(&world, a.id), None);
    world.delete_entity(rock);
    assert_eq!(MeleeCombatSystem::blow(&world, a.id), None);
}

#[test]
fn nameless_fighters_are_logged_without_names() {
    let mut world = arena();
    let a = world.spawn(Outfit {
        combat_stats: Some(CombatStats { max_hp: 5, hp: 5, attack: 3, defense: 0 }),
        ..Outfit::none()
    });
    let b = world.spawn(Outfit {
        combat_stats: Some(CombatStats { max_hp: 5, hp: 5, attack: 3, defense: 0 }),
        ..Outfit::none()
    });
    world.wants_to_melee.insert(&world.entities, a, WantsToMelee { target: b });
    MeleeCombatSystem {}.run(&mut world);
    assert_eq!(
        world.gamelog.entries.last(),
        Some(&LogEntry::Hit { attacker: None, target: None, damage: 3 })
    );
}

#[test]
fn blow_damage_saturates() {
    let mut world = arena();
    let a = fighter(&mut world, "a", 10, i32::MAX, 0);
    let b = fighter(&mut world, "b", 10, 0, i32::MIN);
    world.wants_to_melee.insert(&world.entities, a, WantsToMelee { target: b });
    assert_eq!(MeleeCombatSystem::blow(&world, a.id), Some((b, i32::MAX)));
}

#[test]
fn zero_damage_leaves_hit_points_unchanged() {
    let mut world = arena();
    let a = fighter(&mut world, "a", 12, 1, 1);
    let b = fighter(&mut world, "b", 9, 1, 1);
    let c = fighter(&mut world, "c", 7, 1, 1);
    world.suffers_damage.insert(&world.entities, a, SuffersDamage { amount: vec![] });
    world.suffers_damage.insert(&world.entities, b, SuffersDamage { amount: vec![3, -3] });
    DamageSystem {}.run(&mut world);
    assert_eq!(world.combat_stats.get(&world.entities, a).unwrap().hp, 12);
    assert_eq!(world.combat_stats.get(&world.entities, b).unwrap().hp, 9);
    assert_eq!(world.combat_stats.get(&world.entities, c).unwrap().hp, 7);
}

#[test]
fn damage_sum_and_saturation() {
    assert_eq!(sum(&vec![]), 0);
    assert_eq!(sum(&vec![i32::MAX, i32::MAX, 1]), 2 * (i32::MAX as i128) + 1);
    let mut world = arena();
    let a = fighter(&mut world, "a", -5, 1, 1);
    world.suffers_damage.insert(&world.entities, a, SuffersDamage { amount: vec![i32::MAX, i32::MAX] });
    DamageSystem {}.run(&mut world);
    assert_eq!(world.combat_stats.get(&world.entities, a).unwrap().hp, i32::MIN);
    let stats = world.combat_stats.get(&world.entities, a).unwrap();
    assert_eq!((stats.max_hp, stats.attack, stats.defense), (30, 1, 1));
}

#[test]
fn damage_queue_without_statistics_is_dropped() {
    let mut world = arena();
    let rock = world.spawn(Outfit::none());
    SuffersDamage::new_damage(&mut world.suffers_damage, &world.entities, rock, 4);
    SuffersDamage::new_damage(&mut world.suffers_damage, &world.entities, rock, 5);
    assert_eq!(queue_of(&world, rock), vec![4, 5]);
    DamageSystem {}.run(&mut world);
    assert!(!world.suffers_damage.contains(&world.entities, rock));
}

#[test]
fn new_damage_skips_the_dead() {
    let mut world = arena();
    let e = world.spawn(Outfit::none());
    world.delete_entity(e);
    SuffersDamage::new_damage(&mut world.suffers_damage, &world.entities, e, 4);
    assert_eq!(world.suffers_damage.len(), 0);
}

#[test]
fn reaping_deletes_the_dead_and_names_them() {
    let mut world = arena();
    let alive = fighter(&mut world, "alive", 1, 1, 1);
    let dead = fighter(&mut world, "Goblin", 0, 1, 1);
    let worse = fighter(&mut world, "Orc", -4, 1, 1);
    let before = world.gamelog.entries.len();
    delete_dead_entities(&mut world);
    assert!(world.entities.is_entity_alive(alive));
    assert!(!world.entities.is_entity_alive(dead));
    assert!(!world.entities.is_entity_alive(worse));
    assert!(!world.names.has_slot(dead.id));
    assert!(!world.combat_stats.has_slot(worse.id));
    assert_eq!(
        world.gamelog.entries[before..].to_vec(),
        vec![
            LogEntry::Died { name: "Goblin".to_string() },
            LogEntry::Died { name: "Orc".to_string() }
        ]
    );
    assert_eq!(world.run_state, RunState::PreRun);
}

#[test]
fn dead_player_stays_and_the_game_is_over() {
    let mut world = arena();
    let player = world.spawn(Outfit {
        player: Some(Player {}),
        name: Some(Name { name: "Player".to_string() }),
        combat_stats: Some(CombatStats { max_hp: 30, hp: 0, attack: 5, defense: 2 }),
        ..Outfit::none()
    });
    world.run_state = RunState::MonsterTurn;
    let before = world.gamelog.entries.len();
    delete_dead_entities(&mut world);
    assert!(world.entities.is_entity_alive(player));
    assert!(world.combat_stats.contains(&world.entities, player));
    assert_eq!(world.run_state, RunState::GameOver);
    assert_eq!(world.gamelog.entries.len(), before);
}

#[test]
fn reaping_a_healthy_world_changes_nothing() {
    let mut world = arena();
    let a = fighter(&mut world, "a", 3, 1, 1);
    world.run_state = RunState::AwaitingInput;
    let log = world.gamelog.entries.clone();
    delete_dead_entities(&mut world);
    assert!(world.entities.is_entity_alive(a));
    assert_eq!(world.gamelog.entries, log);
    assert_eq!(world.run_state, RunState::AwaitingInput);
}

#[test]
fn nameless_dead_are_removed_silently() {
    let mut world = arena();
    let e = world.spawn(Outfit {
        combat_stats: Some(CombatStats { max_hp: 1, hp: 0, attack: 0, defense: 0 }),
        ..Outfit::none()
    });
    let before = world.gamelog.entries.len();
    delete_dead_entities(&mut world);
    assert!(!world.entities.is_entity_alive(e));
    assert_eq!(world.gamelog.entries.len(), before);
}
