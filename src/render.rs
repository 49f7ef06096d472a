//! Drawing a snapshot of the world into a frame buffer: a cone and a body
//! circle for each beast, a small circle for each sprouted plant.
use vstd::prelude::*;
use crate::beast::{Beast, BeastType};
use crate::raster::{FrameBuffer, on_circle, in_cone};
use crate::world::Entity;

verus! {

pub const BACKGROUND_COLOR: u32 = 0xFFFFFF;
pub const PLANT_COLOR: u32 = 0x00FF00;
pub const CONE_COLOR: u32 = 0x67d6f5;
pub const HERBIVORE_COLOR: u32 = 0x69440e;
pub const CARNIVORE_COLOR: u32 = 0xf27b1f;
pub const PLANT_RADIUS: u32 = 3;
pub const HERBIVORE_RADIUS: u32 = 7;
pub const CARNIVORE_RADIUS: u32 = 10;

pub open spec fn body_radius(t: BeastType) -> u32 {
    match t {
        BeastType::Herbivore => HERBIVORE_RADIUS,
        BeastType::Carnivore => CARNIVORE_RADIUS,
    }
}

pub open spec fn body_color(t: BeastType) -> u32 {
    match t {
        BeastType::Herbivore => HERBIVORE_COLOR,
        BeastType::Carnivore => CARNIVORE_COLOR,
    }
}

/// The colour of pixel (x, y), which was `c`, once beast `b` is drawn: its
/// cone first, then its body on top.
pub open spec fn beast_paint(b: Beast, x: int, y: int, c: u32) -> u32 {
    if on_circle(body_radius(b.beast_type) as int, x - b.x, y - b.y) {
        body_color(b.beast_type)
    } else if in_cone(b.sight_range as int, b.view, x - b.x, y - b.y) {
        CONE_COLOR
    } else {
        c
    }
}

/// The colour of pixel (x, y), which was `c`, once entity `e` is drawn.
pub open spec fn entity_paint(e: Entity, x: int, y: int, c: u32) -> u32 {
    match e {
        Entity::Plant(p) => if p.sprouted && on_circle(PLANT_RADIUS as int, x - p.x, y - p.y) {
            PLANT_COLOR
        } else {
            c
        },
        Entity::Beast(b) => beast_paint(b, x, y, c),
    }
}

/// The colour of pixel (x, y), which was `c`, once the entities are drawn
/// in order.
pub open spec fn scene_paint(s: Seq<Entity>, x: int, y: int, c: u32) -> u32
    decreases s.len(),
{
    if s.len() == 0 {
        c
    } else {
        entity_paint(s.last(), x, y, scene_paint(s.drop_last(), x, y, c))
    }
}

/// Draws a beast: its view cone, then its body.
pub fn draw_beast(fb: &mut FrameBuffer, beast: &Beast)
    requires
        old(fb).wf(),
    ensures
        final(fb).wf(),
        final(fb).width == old(fb).width,
        final(fb).height == old(fb).height,
        forall|x: int, y: int|
            final(fb).in_bounds(x, y) ==> #[trigger] final(fb).pixel(x, y) == beast_paint(
                *beast,
                x,
                y,
                old(fb).pixel(x, y),
            ),
{
    fb.draw_cone(beast.x, beast.y, beast.sight_range, &beast.view, CONE_COLOR);
    match beast.beast_type {
        BeastType::Herbivore => fb.draw_circle(beast.x, beast.y, HERBIVORE_RADIUS, HERBIVORE_COLOR),
        BeastType::Carnivore => fb.draw_circle(beast.x, beast.y, CARNIVORE_RADIUS, CARNIVORE_COLOR),
    }
}

/// Draws one entity; an unsprouted plant draws nothing.
pub fn draw_entity(fb: &mut FrameBuffer, entity: &Entity)
    requires
        old(fb).wf(),
    ensures
        final(fb).wf(),
        final(fb).width == old(fb).width,
        final(fb).height == old(fb).height,
        forall|x: int, y: int|
            final(fb).in_bounds(x, y) ==> #[trigger] final(fb).pixel(x, y) == entity_paint(
                *entity,
                x,
                y,
                old(fb).pixel(x, y),
            ),
{
    match entity {
        Entity::Plant(p) => {
            if p.sprouted {
                fb.draw_circle(p.x, p.y, PLANT_RADIUS, PLANT_COLOR);
            }
        },
        Entity::Beast(b) => draw_beast(fb, b),
    }
}

/// Renders a frame: clears to the background colour, then draws every
/// entity in order.
pub fn render_frame(fb: &mut FrameBuffer, entities: &Vec<Entity>)
    requires
        old(fb).wf(),
    ensures
        final(fb).wf(),
        final(fb).width == old(fb).width,
        final(fb).height == old(fb).height,
        forall|x: int, y: int|
            final(fb).in_bounds(x, y) ==> #[trigger] final(fb).pixel(x, y) == scene_paint(
                entities@,
                x,
                y,
                BACKGROUND_COLOR,
            ),
{
    fb.clear(BACKGROUND_COLOR);
    let n = entities.len();
    let mut i: usize = 0;
    while i < n
        invariant
            fb.wf(),
            fb.width == old(fb).width,
            fb.height == old(fb).height,
            n == entities@.len(),
            i <= n,
            forall|x: int, y: int|
                fb.in_bounds(x, y) ==> #[trigger] fb.pixel(x, y) == scene_paint(
                    entities@.subrange(0, i as int),
                    x,
                    y,
                    BACKGROUND_COLOR,
                ),
        decreases n - i,
    {
        proof {
            assert(entities@.subrange(0, i + 1).drop_last() == entities@.subrange(0, i as int));
        }
        draw_entity(fb, &entities[i]);
        i += 1;
    }
    proof {
        assert(entities@.subrange(0, n as int) == entities@);
    }
}

} // verus!
