//! The entity arena and its generation-checked handles.

use rusty_roguelike::components::{CombatStats, Position};
use rusty_roguelike::ecs::Column;
use rusty_roguelike::world::World;

#[test]
fn column_insert_get_remove() {
    let mut col: Column<Position> = Column::new(4);
    assert_eq!(col.len(), 4);
    assert!(!col.contains(2));
    col.insert(2, Position { x: 7, y: 9 });
    assert!(col.contains(2));
    let p = col.get(2).unwrap();
    assert_eq!((p.x, p.y), (7, 9));
    col.remove(2);
    assert!(!col.contains(2));
    assert!(col.get(2).is_none());
}

#[test]
fn column_clear_empties_every_cell() {
    let mut col: Column<Position> = Column::new(3);
    col.insert(0, Position { x: 1, y: 1 });
    col.insert(2, Position { x: 2, y: 2 });
    col.clear();
    assert!(!col.contains(0));
    assert!(!col.contains(1));
    assert!(!col.contains(2));
    assert_eq!(col.len(), 3);
}

#[test]
fn created_entities_are_valid_and_empty() {
    let mut w = World::new();
    let e = w.create_entity();
    assert!(w.is_valid(e));
    assert!(!w.positions.contains(e.idx));
    assert!(!w.combat_stats.contains(e.idx));
}

#[test]
fn deletion_waits_for_the_barrier() {
    let mut w = World::new();
    let e = w.create_entity();
    w.combat_stats.insert(
        e.idx,
        CombatStats { max_hp: 10, hp: 10, defense: 0, power: 1 },
    );
    w.delete_entity(e);
    // still fully present until the barrier
    assert!(w.is_valid(e));
    assert!(w.combat_stats.contains(e.idx));
    w.maintain();
    // gone, and stripped
    assert!(!w.is_valid(e));
    assert!(!w.combat_stats.contains(e.idx));
}

#[test]
fn stale_handles_never_alias_a_reused_slot() {
    let mut w = World::new();
    let e1 = w.create_entity();
    w.delete_entity(e1);
    w.maintain();
    let e2 = w.create_entity();
    // the slot is reused under a new generation
    assert_eq!(e1.idx, e2.idx);
    assert_ne!(e1.gen, e2.gen);
    assert!(!w.is_valid(e1));
    assert!(w.is_valid(e2));
}

#[test]
fn double_deletion_is_harmless() {
    let mut w = World::new();
    let e = w.create_entity();
    let other = w.create_entity();
    w.delete_entity(e);
    w.delete_entity(e);
    w.maintain();
    assert!(!w.is_valid(e));
    assert!(w.is_valid(other));
}
