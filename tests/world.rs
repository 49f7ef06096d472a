use beast_sim::beast::{Beast, BeastType};
use beast_sim::memory::EntityKind;
use beast_sim::raster::FrameBuffer;
use beast_sim::render::{
    draw_beast, render_frame, BACKGROUND_COLOR, CARNIVORE_COLOR, CONE_COLOR, HERBIVORE_COLOR,
    PLANT_COLOR,
};
use beast_sim::world::{Entity, Plant, World, SPROUT_SCALE};

fn world() -> World {
    World::new(520, 520, 5, 10, 100, 1000, 10)
}

#[test]
fn new_world_splits_the_inside_into_cells() {
    let w = world();
    assert_eq!(w.cell_width, 100);
    assert_eq!(w.cell_height, 100);
    assert!(w.entities.is_empty());
    let narrow = World::new(15, 15, 3, 10, 100, 0, 1);
    assert_eq!(narrow.cell_width, 0);
    let none = World::new(100, 100, 0, 10, 100, 0, 1);
    assert_eq!(none.cell_width, 0);
}

#[test]
fn add_entity_hands_out_fresh_identities() {
    let mut w = world();
    let a = w.add_entity(Entity::Beast(Beast::new(99, BeastType::Herbivore, 1, 1, 3)));
    let b = w.add_entity(Entity::Beast(Beast::new(99, BeastType::Herbivore, 1, 1, 3)));
    assert_eq!((a, b), (0, 1));
    assert_eq!(w.entities[1].id(), 1);
    if let Entity::Beast(b) = &w.entities[0] {
        assert_eq!((b.speed, b.sight_range), (1, 25));
        assert_eq!((b.view.cos_num, b.view.cos_den), (7071, 10000));
    }
}

#[test]
fn restart_fills_beasts_then_plants() {
    let mut w = world();
    w.restart_world(10, 5, 4);
    assert_eq!(w.entities.len(), 5 + 4 + 25);
    for (i, e) in w.entities.iter().enumerate() {
        assert_eq!(e.id(), i as u64);
        match e {
            Entity::Beast(b) if i < 5 => assert_eq!(b.beast_type, BeastType::Herbivore),
            Entity::Beast(b) if i < 9 => assert_eq!(b.beast_type, BeastType::Carnivore),
            Entity::Plant(p) if i >= 9 => {
                let cell = (i - 9) as i32;
                assert!(!p.sprouted);
                assert_eq!(p.origin_x, 10 + (cell / 5) * 100);
                assert_eq!(p.origin_y, 10 + (cell % 5) * 100);
                assert_eq!((p.x, p.y), (p.origin_x, p.origin_y));
                assert_eq!((p.cell_width, p.cell_height), (100, 100));
                assert_eq!(p.sprout_rate, 1000);
            }
            _ => panic!("entity {} out of order", i),
        }
        if let Entity::Beast(b) = e {
            assert!(b.x >= 10 && b.x < 530 && b.y >= 10 && b.y < 530);
            assert_eq!(b.memory.len(), 0);
            assert_eq!(b.memory.duration, 10);
        }
    }
    w.restart_world(0, 1, 0);
    assert_eq!(w.entities.len(), 26);
    assert_eq!(w.entities[0].id(), 0);
}

#[test]
fn simulation_continues_while_both_kinds_live() {
    let mut w = world();
    assert!(!w.continue_simulation(None));
    let h = w.add_beast_at(BeastType::Herbivore, 0, 0);
    assert!(w.contains_type(BeastType::Herbivore));
    assert!(!w.continue_simulation(None));
    w.add_beast_at(BeastType::Carnivore, 5, 5);
    assert!(w.continue_simulation(None));
    assert!(w.continue_simulation(Some(true)));
    assert!(!w.continue_simulation(Some(false)));
    w.remove_entity(h);
    assert!(!w.continue_simulation(None));
}

#[test]
fn removal_reaches_every_memory() {
    let mut w = world();
    let watcher = w.add_beast_at(BeastType::Carnivore, 0, 0);
    let prey = w.add_beast_at(BeastType::Herbivore, 5, 0);
    let other = w.add_beast_at(BeastType::Herbivore, 100, 100);
    w.step();
    if let Entity::Beast(b) = &w.entities[0] {
        assert!(b.memory.contains(prey));
    }
    w.remove_entity(prey);
    let ids: Vec<u64> = w.entities.iter().map(|e| e.id()).collect();
    assert_eq!(ids, vec![watcher, other]);
    if let Entity::Beast(b) = &w.entities[0] {
        assert!(!b.memory.contains(prey));
        assert_eq!(b.id, watcher);
        assert_eq!(b.age, 1);
        assert_eq!(b.energy, 99);
    }
    if let Entity::Beast(b) = &w.entities[1] {
        assert_eq!(b.id, other);
        assert_eq!(b.beast_type, BeastType::Herbivore);
    }
    w.remove_entity(12345);
    assert_eq!(w.entities.len(), 2);
}

#[test]
fn step_ages_beasts_and_keeps_identities() {
    let mut w = world();
    w.add_beast_at(BeastType::Carnivore, 0, 0);
    w.add_entity(Entity::Plant(Plant::new(0, (3, 0), (10, 10), 0)));
    w.step();
    match &w.entities[0] {
        Entity::Beast(b) => {
            assert_eq!(b.age, 1);
            assert_eq!(b.energy, 99);
            assert!((b.x.abs() <= 1) && (b.y.abs() <= 1) && (b.x, b.y) != (0, 0));
            // An unsprouted plant is not perceived.
            assert_eq!(b.memory.len(), 0);
        }
        _ => panic!("beast expected"),
    }
    assert_eq!(w.entities[1].id(), 1);
}

#[test]
fn sure_sprouting_lands_inside_the_cell() {
    for _ in 0..50 {
        let mut p = Plant::new(1, (40, 60), (10, 20), SPROUT_SCALE as u32);
        p.step();
        assert!(p.sprouted);
        assert!(p.x >= 40 && p.x < 50, "x {}", p.x);
        assert!(p.y >= 60 && p.y < 80, "y {}", p.y);
        let (x, y) = (p.x, p.y);
        p.step();
        assert_eq!((p.x, p.y), (x, y));
    }
    let mut never = Plant::new(2, (0, 0), (10, 10), 0);
    never.step();
    assert!(!never.sprouted);
}

#[test]
fn grow_uses_the_given_draws() {
    let mut p = Plant::new(1, (40, 60), (10, 20), 500);
    p.grow(500, 3, 4);
    assert!(!p.sprouted);
    p.grow(499, 3, 4);
    assert!(p.sprouted);
    assert_eq!((p.x, p.y), (43, 64));
}

#[test]
fn move_toward_steps_along_the_compass() {
    let mut b = Beast::new(1, BeastType::Herbivore, 10, 10, 3);
    b.move_toward(3);
    assert_eq!((b.x, b.y), (9, 11));
    assert_eq!((b.view.dir_x, b.view.dir_y), (-1, 1));
    let mut edge = Beast::new(2, BeastType::Herbivore, i32::MAX, 0, 3);
    edge.move_toward(0);
    assert_eq!(edge.x, i32::MAX);
}

#[test]
fn random_moves_take_one_compass_step() {
    for _ in 0..50 {
        let mut b = Beast::new(1, BeastType::Herbivore, 0, 0, 3);
        b.move_randomly();
        assert!(b.x.abs() <= 1 && b.y.abs() <= 1 && (b.x, b.y) != (0, 0));
        assert_eq!((b.view.dir_x as i32, b.view.dir_y as i32), (b.x, b.y));
    }
}

#[test]
fn frame_draws_cones_under_bodies_and_skips_unsprouted_plants() {
    let mut fb = FrameBuffer::new(60, 60, 0);
    let mut sprouted = Plant::new(1, (40, 40), (5, 5), 0);
    sprouted.grow(0, 0, 0);
    let mut keen = Plant::new(1, (40, 40), (5, 5), 1);
    keen.grow(0, 2, 2);
    let entities = vec![
        Entity::Plant(Plant::new(0, (5, 50), (5, 5), 0)),
        Entity::Plant(keen),
        Entity::Beast(Beast::new(2, BeastType::Herbivore, 20, 20, 3)),
    ];
    render_frame(&mut fb, &entities);
    assert_eq!(fb.get(8, 50), BACKGROUND_COLOR);
    assert_eq!(fb.get(45, 42), PLANT_COLOR);
    assert_eq!(fb.get(27, 20), HERBIVORE_COLOR);
    assert_eq!(fb.get(30, 20), CONE_COLOR);
    assert_eq!(fb.get(13, 20), HERBIVORE_COLOR);
    assert_eq!(fb.get(12, 20), BACKGROUND_COLOR);
    assert!(!sprouted.sprouted);
}

#[test]
fn carnivores_have_larger_bodies() {
    let mut fb = FrameBuffer::new(60, 60, 0);
    let b = Beast::new(2, BeastType::Carnivore, 30, 30, 3);
    draw_beast(&mut fb, &b);
    assert_eq!(fb.get(40, 30), CARNIVORE_COLOR);
    assert_eq!(fb.get(20, 30), CARNIVORE_COLOR);
    assert_eq!(fb.get(45, 30), CONE_COLOR);
    assert_eq!(b.sighting().kind, EntityKind::Carnivore);
}
