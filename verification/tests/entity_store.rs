use dungeon_core::components::{Name, Position};
use dungeon_core::entity::{Entities, Entity};
use dungeon_core::storage::Storage;

#[test]
fn first_entity_opens_slot_zero_with_generation_one() {
    let mut entities = Entities::new();
    let e = entities.create();
    assert_eq!(e, Entity { id: 0, generation: 1 });
    assert!(entities.is_entity_alive(e));
    assert_eq!(entities.len(), 1);
}

#[test]
fn killed_entity_is_dead_and_kill_reports_it() {
    let mut entities = Entities::new();
    let e = entities.create();
    assert!(entities.kill(e));
    assert!(!entities.is_entity_alive(e));
    assert!(!entities.kill(e));
    assert!(!entities.slot_is_alive(0));
}

#[test]
fn reused_slot_gets_a_higher_generation() {
    let mut entities = Entities::new();
    let a = entities.create();
    let b = entities.create();
    entities.kill(a);
    let c = entities.create();
    assert_eq!(c.id, a.id);
    assert_eq!(c.generation, a.generation + 1);
    assert_ne!(c, a);
    assert!(!entities.is_entity_alive(a));
    assert!(entities.is_entity_alive(b));
    assert!(entities.is_entity_alive(c));
    assert_eq!(entities.len(), 2);
}

#[test]
fn lowest_dead_slot_is_reused_first() {
    let mut entities = Entities::new();
    let a = entities.create();
    let b = entities.create();
    let _c = entities.create();
    entities.kill(b);
    entities.kill(a);
    let d = entities.create();
    assert_eq!(d.id, 0);
    let e = entities.create();
    assert_eq!(e.id, 1);
}

#[test]
fn slot_with_exhausted_generation_is_never_reused() {
    let mut entities = Entities::new();
    let a = entities.create();
    entities.kill(a);
    entities.generations[0] = u64::MAX;
    let b = entities.create();
    assert_eq!(b, Entity { id: 1, generation: 1 });
}

#[test]
fn entity_of_unknown_slot_is_not_alive() {
    let entities = Entities::new();
    assert!(!entities.is_entity_alive(Entity { id: 7, generation: 1 }));
    assert!(!entities.slot_is_alive(7));
}

#[test]
fn storage_insert_get_remove() {
    let mut entities = Entities::new();
    let a = entities.create();
    let b = entities.create();
    let mut positions: Storage<Position> = Storage::new();
    assert!(positions.insert(&entities, b, Position { x: 3, y: 4 }));
    assert_eq!(positions.get(&entities, b), Some(&Position { x: 3, y: 4 }));
    assert_eq!(positions.get(&entities, a), None);
    assert!(positions.contains(&entities, b));
    assert_eq!(positions.remove(&entities, b), Some(Position { x: 3, y: 4 }));
    assert!(!positions.contains(&entities, b));
}

#[test]
fn storage_refuses_dead_entity() {
    let mut entities = Entities::new();
    let a = entities.create();
    entities.kill(a);
    let mut names: Storage<Name> = Storage::new();
    assert!(!names.insert(&entities, a, Name { name: "ghost".to_string() }));
    assert_eq!(names.len(), 0);
}

#[test]
fn stale_identifier_does_not_reach_the_new_entity() {
    let mut entities = Entities::new();
    let old = entities.create();
    entities.kill(old);
    let new = entities.create();
    let mut positions: Storage<Position> = Storage::new();
    positions.insert(&entities, new, Position { x: 1, y: 1 });
    assert_eq!(positions.get(&entities, old), None);
    assert_eq!(positions.remove(&entities, old), None);
    assert_eq!(positions.get(&entities, new), Some(&Position { x: 1, y: 1 }));
}

#[test]
fn storage_put_and_slot_level_access() {
    let mut s: Storage<Position> = Storage::new();
    s.put(2, None);
    assert!(!s.has_slot(2));
    s.put(2, Some(Position { x: 5, y: 6 }));
    assert_eq!(s.copied(2), Some(Position { x: 5, y: 6 }));
    assert_eq!(s.slot(0), None);
    assert_eq!(s.unset(2), Some(Position { x: 5, y: 6 }));
    assert_eq!(s.unset(9), None);
    s.set(1, Position { x: 0, y: 0 });
    s.clear();
    assert!(!s.has_slot(1));
}
