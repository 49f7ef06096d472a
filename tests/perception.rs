use beast_sim::beast::{Beast, BeastType};
use beast_sim::geometry::{in_radius, FieldOfView};
use beast_sim::world::{Entity, Plant};

fn observer_at_origin(range: u32) -> Beast {
    let mut b = Beast::new(1, BeastType::Herbivore, 0, 0, 3);
    b.sight_range = range;
    b
}

fn beast_at(id: u64, x: i32, y: i32) -> Entity {
    Entity::Beast(Beast::new(id, BeastType::Carnivore, x, y, 3))
}

#[test]
fn quarter_turn_observer_scenario() {
    let o = observer_at_origin(10);
    assert!(o.in_view(&beast_at(2, 5, 0)));
    assert!(!o.in_view(&beast_at(3, 0, 5)));
    assert!(!o.in_view(&beast_at(4, 20, 0)));
    assert!(o.in_direction(&beast_at(4, 20, 0)));
    assert!(!o.in_range(&beast_at(4, 20, 0)));
}

#[test]
fn in_view_is_range_and_direction() {
    let o = observer_at_origin(10);
    for x in -15..=15 {
        for y in -15..=15 {
            let e = beast_at(9, x, y);
            assert_eq!(o.in_view(&e), o.in_range(&e) && o.in_direction(&e), "at ({}, {})", x, y);
        }
    }
}

#[test]
fn straight_ahead_is_visible_and_past_the_edge_is_not() {
    let headings: [(i16, i16); 8] =
        [(1, 0), (1, 1), (0, 1), (-1, 1), (-1, 0), (-1, -1), (0, -1), (1, -1)];
    for (hx, hy) in headings {
        let mut o = observer_at_origin(50);
        o.view = FieldOfView::new(hx, hy, 7071, 10000);
        for k in 1..=30 {
            let e = beast_at(2, k * hx as i32, k * hy as i32);
            assert!(o.in_view(&e));
        }
    }
    // Half angle a little over 45 degrees: 45 degrees is inside, 47.7 is not.
    let o = observer_at_origin(50);
    assert!(o.in_view(&beast_at(2, 10, 10)));
    assert!(o.in_view(&beast_at(2, 10, -10)));
    assert!(!o.in_view(&beast_at(2, 10, 11)));
    assert!(!o.in_view(&beast_at(2, 10, -11)));
}

#[test]
fn any_point_on_the_heading_ray_is_visible() {
    let mut o = observer_at_origin(50);
    o.view = FieldOfView::new(4, 6, 9000, 10000);
    assert!(o.in_view(&beast_at(2, 2, 3)));
    assert!(o.in_view(&beast_at(2, 6, 9)));
    assert!(!o.in_view(&beast_at(2, -2, -3)));
    o.view = FieldOfView::new(2, 2, 32767, 32767);
    assert!(o.in_view(&beast_at(2, 1, 1)));
    assert!(!o.in_view(&beast_at(2, 2, 1)));
}

#[test]
fn zero_offsets_on_the_axes_are_handled() {
    let mut o = observer_at_origin(10);
    o.view = FieldOfView::new(0, 1, 7071, 10000);
    assert!(o.in_view(&beast_at(2, 0, 7)));
    assert!(!o.in_view(&beast_at(2, 0, -7)));
    assert!(!o.in_view(&beast_at(2, 7, 0)));
    // The observer's own spot lies in every cone.
    assert!(o.in_direction(&beast_at(2, 0, 0)));
}

#[test]
fn wide_cones_reach_behind() {
    let mut o = observer_at_origin(10);
    // Half angle of 120 degrees.
    o.view = FieldOfView::new(1, 0, -5000, 10000);
    assert!(o.in_view(&beast_at(2, 0, 5)));
    assert!(o.in_view(&beast_at(2, -2, 5)));
    assert!(!o.in_view(&beast_at(2, -3, 5)));
    assert!(!o.in_view(&beast_at(2, -5, 0)));
    // Half angle of 180 degrees: everything in range.
    o.view = FieldOfView::new(1, 0, -1, 1);
    assert!(o.in_view(&beast_at(2, -5, 0)));
}

#[test]
fn plants_use_their_current_position() {
    let o = observer_at_origin(10);
    let mut p = Plant::new(5, (30, 30), (10, 10), 0);
    assert!(!o.plant_in_view(&p));
    p.x = 6;
    p.y = 2;
    assert!(o.plant_in_view(&p));
    assert!(o.plant_in_range(&p, 7));
    assert!(!o.plant_in_range(&p, 6));
    assert!(o.plant_in_direction(&p));
    assert!(o.in_view(&Entity::Plant(p)));
}

#[test]
fn beast_variants_agree_with_entity_queries() {
    let o = observer_at_origin(10);
    let t = Beast::new(2, BeastType::Herbivore, 6, -3, 3);
    assert!(o.beast_in_view(&t));
    assert!(o.beast_in_direction(&t));
    assert!(o.beast_in_range(&t, 7));
    assert!(!o.beast_in_range(&t, 6));
}

#[test]
fn distance_is_exact_at_the_boundary() {
    assert!(in_radius(0, 0, 3, 4, 5));
    assert!(!in_radius(0, 0, 3, 5, 5));
    assert!(in_radius(i32::MIN, i32::MIN, i32::MIN, i32::MIN, 0));
    assert!(in_radius(i32::MIN, 0, i32::MAX, 0, u32::MAX));
    assert!(!in_radius(i32::MIN, 0, i32::MAX, 1, u32::MAX));
}
