use beast_sim::beast::{Beast, BeastType};
use beast_sim::memory::{EntityKind, Memory, Sighting};
use beast_sim::world::Entity;

fn seen(id: u64) -> Sighting {
    Sighting { id, kind: EntityKind::Plant, x: 1, y: 2 }
}

#[test]
fn perceiving_every_tick_keeps_one_fresh_entry() {
    let mut m = Memory::new(4);
    for _ in 0..6 {
        m.remember(seen(7));
        assert_eq!(m.len(), 1);
        assert_eq!(m.recall(7).unwrap().remaining, 4);
        m.age();
    }
    assert_eq!(m.len(), 1);
    assert_eq!(m.recall(7).unwrap().remaining, 3);
}

#[test]
fn refreshing_updates_the_snapshot() {
    let mut m = Memory::new(2);
    m.remember(seen(1));
    m.remember(seen(2));
    m.remember(Sighting { id: 1, kind: EntityKind::Plant, x: 9, y: 9 });
    assert_eq!(m.len(), 2);
    assert_eq!(m.recall(1).unwrap().seen.x, 9);
}

#[test]
fn forgotten_on_the_tick_after_the_last_remembered_one() {
    // Remembered at tick 0 with a duration of 3; out of view from tick 1 on.
    let mut m = Memory::new(3);
    m.remember(seen(5));
    for _tick in 1..=3 {
        assert!(m.contains(5));
        m.age();
    }
    assert!(!m.contains(5));
    assert_eq!(m.len(), 0);
}

#[test]
fn decay_counts_down_one_per_tick() {
    let mut m = Memory::new(5);
    m.remember(seen(1));
    for k in 0..5u32 {
        assert_eq!(m.recall(1).map(|e| e.remaining), Some(5 - k));
        m.age();
    }
    assert_eq!(m.recall(1), None);
}

#[test]
fn forget_drops_an_entry_whatever_its_count() {
    let mut m = Memory::new(10);
    m.remember(seen(1));
    m.remember(seen(2));
    m.forget(1);
    assert!(!m.contains(1));
    assert!(m.contains(2));
    m.forget(3);
    assert_eq!(m.len(), 1);
}

#[test]
fn zero_duration_is_gone_after_one_tick() {
    let mut m = Memory::new(0);
    m.remember(seen(1));
    assert!(m.contains(1));
    m.age();
    assert!(!m.contains(1));
}

#[test]
fn add_to_memory_only_takes_what_is_in_view() {
    let mut b = Beast::new(1, BeastType::Carnivore, 0, 0, 3);
    let near = Entity::Beast(Beast::new(2, BeastType::Herbivore, 10, 0, 3));
    let behind = Entity::Beast(Beast::new(3, BeastType::Herbivore, -10, 0, 3));
    b.add_to_memory(&near);
    b.add_to_memory(&behind);
    assert!(b.memory.contains(2));
    assert!(!b.memory.contains(3));
    assert_eq!(b.memory.recall(2).unwrap().seen.kind, EntityKind::Herbivore);
    b.remove_from_memory(2);
    assert!(!b.memory.contains(2));
}

#[test]
fn perceive_skips_itself_and_what_it_cannot_see() {
    let mut b = Beast::new(1, BeastType::Carnivore, 0, 0, 3);
    let snapshot = vec![
        Sighting { id: 1, kind: EntityKind::Carnivore, x: 0, y: 0 },
        Sighting { id: 2, kind: EntityKind::Plant, x: 5, y: 1 },
        Sighting { id: 3, kind: EntityKind::Plant, x: 50, y: 0 },
        Sighting { id: 4, kind: EntityKind::Herbivore, x: 0, y: 5 },
    ];
    b.perceive(&snapshot);
    assert!(!b.memory.contains(1));
    assert!(b.memory.contains(2));
    assert!(!b.memory.contains(3));
    assert!(!b.memory.contains(4));
    b.memory_forget();
    assert_eq!(b.memory.recall(2).unwrap().remaining, 2);
}
