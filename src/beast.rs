//! Beasts: mobile agents that perceive the world through a view cone and
//! remember what they saw.
use vstd::prelude::*;
use crate::chance::random_below;
use crate::geometry::{FieldOfView, in_radius, within_radius, beyond_angle, lemma_heading_ray_in_cone};
use crate::memory::{Memory, MemoryEntry, Sighting, EntityKind, remembered, aged, without, lookup};
use crate::world::{Entity, Plant};

verus! {

#[derive(Clone, Copy, Debug, PartialEq, Eq, Structural)]
pub enum BeastType {
    Herbivore,
    Carnivore,
}

/// The eight compass directions a beast can face, as unit steps.
pub open spec fn compass(dir: int) -> (int, int) {
    if dir == 0 {
        (1, 0)
    } else if dir == 1 {
        (1, 1)
    } else if dir == 2 {
        (0, 1)
    } else if dir == 3 {
        (-1, 1)
    } else if dir == 4 {
        (-1, 0)
    } else if dir == 5 {
        (-1, -1)
    } else if dir == 6 {
        (0, -1)
    } else {
        (1, -1)
    }
}

/// `v` clamped into the range of `i32`.
pub open spec fn clamp_i32(v: int) -> int {
    if v < i32::MIN {
        i32::MIN as int
    } else if v > i32::MAX {
        i32::MAX as int
    } else {
        v
    }
}

pub struct Beast {
    pub id: u64,
    pub beast_type: BeastType,
    pub x: i32,
    pub y: i32,
    pub speed: i32,
    pub view: FieldOfView,
    pub sight_range: u32,
    pub energy: i64,
    pub age: u64,
    pub memory: Memory,
}

impl Beast {
    pub open spec fn wf(&self) -> bool {
        self.memory.wf()
    }

    /// The point (x, y) lies within this beast's sight radius.
    pub open spec fn spec_in_range_of(&self, x: int, y: int) -> bool {
        within_radius(self.x as int, self.y as int, x, y, self.sight_range as int)
    }

    /// The point (x, y) lies inside this beast's view cone.
    pub open spec fn spec_in_direction_of(&self, x: int, y: int) -> bool {
        self.view.contains_offset(x - self.x, y - self.y)
    }

    /// The point (x, y) is visible to this beast: near enough and in its cone.
    pub open spec fn spec_in_view_of(&self, x: int, y: int) -> bool {
        self.spec_in_range_of(x, y) && self.spec_in_direction_of(x, y)
    }

    /// What this beast notes down about the sightings in `snapshot`: every
    /// one but itself that it can see, in order.
    pub open spec fn perceived(&self, snapshot: Seq<Sighting>, mem: Seq<MemoryEntry>) -> Seq<
        MemoryEntry,
    >
        decreases snapshot.len(),
    {
        if snapshot.len() == 0 {
            mem
        } else {
            let before = self.perceived(snapshot.drop_last(), mem);
            let s = snapshot.last();
            if s.id != self.id && self.spec_in_view_of(s.x as int, s.y as int) {
                remembered(before, s, self.memory.duration)
            } else {
                before
            }
        }
    }

    /// Every field but the memory's entries is that of `o`.
    pub open spec fn same_but_memory(&self, o: Beast) -> bool {
        &&& self.id == o.id
        &&& self.beast_type == o.beast_type
        &&& self.x == o.x
        &&& self.y == o.y
        &&& self.speed == o.speed
        &&& self.view == o.view
        &&& self.sight_range == o.sight_range
        &&& self.energy == o.energy
        &&& self.age == o.age
        &&& self.memory.duration == o.memory.duration
    }

    /// This beast faces one of the compass directions and stands one move
    /// along it from where `o` stood.
    pub open spec fn moved_one_step_from(&self, o: Beast) -> bool {
        exists|dir: int|
            0 <= dir < 8 && self.x == clamp_i32(o.x + o.speed * #[trigger] compass(dir).0)
                && self.y == clamp_i32(o.y + o.speed * compass(dir).1) && self.view == (
            FieldOfView { dir_x: compass(dir).0 as i16, dir_y: compass(dir).1 as i16, ..o.view })
    }

    /// A beast facing east with a quarter-turn field of view, sight radius 25,
    /// speed 1 and 100 energy, whose sightings last `memory_time` ticks.
    pub fn new(id: u64, beast_type: BeastType, x: i32, y: i32, memory_time: u32) -> (b: Self)
        ensures
            b.wf(),
            b.id == id,
            b.beast_type == beast_type,
            b.x == x,
            b.y == y,
            b.speed == 1,
            b.view == (FieldOfView { dir_x: 1, dir_y: 0, cos_num: 7071, cos_den: 10000 }),
            b.sight_range == 25,
            b.energy == 100,
            b.age == 0,
            b.memory@.len() == 0,
            b.memory.duration == memory_time,
    {
        Beast {
            id,
            beast_type,
            x,
            y,
            speed: 1,
            view: FieldOfView::new(1, 0, 7071, 10000),
            sight_range: 25,
            energy: 100,
            age: 0,
            memory: Memory::new(memory_time),
        }
    }

    /// This beast's own sighting record.
    pub fn sighting(&self) -> (s: Sighting)
        ensures
            s.id == self.id,
            s.x == self.x,
            s.y == self.y,
            s.kind == (match self.beast_type {
                BeastType::Herbivore => EntityKind::Herbivore,
                BeastType::Carnivore => EntityKind::Carnivore,
            }),
    {
        let kind = match self.beast_type {
            BeastType::Herbivore => EntityKind::Herbivore,
            BeastType::Carnivore => EntityKind::Carnivore,
        };
        Sighting { id: self.id, kind, x: self.x, y: self.y }
    }

    /// Whether the entity is both within sight range and inside the view cone.
    pub fn in_view(&self, entity: &Entity) -> (r: bool)
        ensures
            r == self.spec_in_view_of(entity.spec_x(), entity.spec_y()),
    {
        self.in_range(entity) && self.in_direction(entity)
    }

    pub fn plant_in_view(&self, plant: &Plant) -> (r: bool)
        ensures
            r == self.spec_in_view_of(plant.x as int, plant.y as int),
    {
        self.point_in_range(plant.x, plant.y, self.sight_range) && self.point_in_direction(
            plant.x,
            plant.y,
        )
    }

    pub fn beast_in_view(&self, beast: &Beast) -> (r: bool)
        ensures
            r == self.spec_in_view_of(beast.x as int, beast.y as int),
    {
        self.point_in_range(beast.x, beast.y, self.sight_range) && self.point_in_direction(
            beast.x,
            beast.y,
        )
    }

    /// Whether the entity lies inside the view cone, at any distance.
    pub fn in_direction(&self, entity: &Entity) -> (r: bool)
        ensures
            r == self.spec_in_direction_of(entity.spec_x(), entity.spec_y()),
    {
        match entity {
            Entity::Plant(p) => self.plant_in_direction(p),
            Entity::Beast(b) => self.beast_in_direction(b),
        }
    }

    pub fn plant_in_direction(&self, plant: &Plant) -> (r: bool)
        ensures
            r == self.spec_in_direction_of(plant.x as int, plant.y as int),
    {
        self.point_in_direction(plant.x, plant.y)
    }

    pub fn beast_in_direction(&self, beast: &Beast) -> (r: bool)
        ensures
            r == self.spec_in_direction_of(beast.x as int, beast.y as int),
    {
        self.point_in_direction(beast.x, beast.y)
    }

    fn point_in_direction(&self, x: i32, y: i32) -> (r: bool)
        ensures
            r == self.spec_in_direction_of(x as int, y as int),
    {
        self.view.covers(self.x, self.y, x, y)
    }

    /// Whether the entity lies within sight range, in any direction.
    pub fn in_range(&self, entity: &Entity) -> (r: bool)
        ensures
            r == self.spec_in_range_of(entity.spec_x(), entity.spec_y()),
    {
        match entity {
            Entity::Plant(p) => self.plant_in_range(p, self.sight_range),
            Entity::Beast(b) => self.beast_in_range(b, self.sight_range),
        }
    }

    pub fn plant_in_range(&self, plant: &Plant, range: u32) -> (r: bool)
        ensures
            r == within_radius(
                self.x as int,
                self.y as int,
                plant.x as int,
                plant.y as int,
                range as int,
            ),
    {
        self.point_in_range(plant.x, plant.y, range)
    }

    pub fn beast_in_range(&self, beast: &Beast, range: u32) -> (r: bool)
        ensures
            r == within_radius(self.x as int, self.y as int, beast.x as int, beast.y as int, range as int),
    {
        self.point_in_range(beast.x, beast.y, range)
    }

    fn point_in_range(&self, x: i32, y: i32, range: u32) -> (r: bool)
        ensures
            r == within_radius(self.x as int, self.y as int, x as int, y as int, range as int),
    {
        in_radius(self.x, self.y, x, y, range)
    }

    /// Remembers the entity if it is in view; does nothing otherwise.
    pub fn add_to_memory(&mut self, entity: &Entity)
        requires
            old(self).wf(),
        ensures
            final(self).wf(),
            final(self).memory@ == if old(self).spec_in_view_of(entity.spec_x(), entity.spec_y()) {
                remembered(old(self).memory@, entity.spec_sighting(), old(self).memory.duration)
            } else {
                old(self).memory@
            },
            final(self).same_but_memory(*old(self)),
    {
        if self.in_view(entity) {
            let s = entity.sighting();
            self.memory.remember(s);
        }
    }

    /// Forgets the entity with identity `id`, however long it had left.
    pub fn remove_from_memory(&mut self, id: u64)
        requires
            old(self).wf(),
        ensures
            final(self).wf(),
            final(self).memory@ == without(old(self).memory@, id),
            lookup(final(self).memory@, id).is_none(),
            final(self).same_but_memory(*old(self)),
    {
        self.memory.forget(id);
    }

    /// One tick of memory decay.
    pub fn memory_forget(&mut self)
        requires
            old(self).wf(),
        ensures
            final(self).wf(),
            final(self).memory@ == aged(old(self).memory@),
            final(self).same_but_memory(*old(self)),
    {
        self.memory.age();
    }

    /// Remembers every sighting of `snapshot` that this beast can see, other
    /// than its own.
    pub fn perceive(&mut self, snapshot: &Vec<Sighting>)
        requires
            old(self).wf(),
        ensures
            final(self).wf(),
            final(self).memory@ == old(self).perceived(snapshot@, old(self).memory@),
            final(self).same_but_memory(*old(self)),
    {
        let ghost start = *self;
        let n = snapshot.len();
        let mut i: usize = 0;
        while i < n
            invariant
                n == snapshot@.len(),
                i <= n,
                self.wf(),
                self.same_but_memory(start),
                self.memory@ == start.perceived(snapshot@.subrange(0, i as int), start.memory@),
            decreases n - i,
        {
            let s = snapshot[i];
            proof {
                assert(snapshot@.subrange(0, i + 1).drop_last() == snapshot@.subrange(0, i as int));
            }
            if s.id != self.id && self.point_in_range(s.x, s.y, self.sight_range)
                && self.point_in_direction(s.x, s.y) {
                self.memory.remember(s);
            }
            i += 1;
        }
        proof {
            assert(snapshot@.subrange(0, n as int) == snapshot@);
        }
    }

    /// Turns to compass direction `dir` (0 is east, counting a eighth turn
    /// at a time towards positive y) and moves `speed` steps along it,
    /// stopping at the edge of the coordinate range.
    pub fn move_toward(&mut self, dir: u64)
        requires
            old(self).wf(),
            dir < 8,
        ensures
            final(self).wf(),
            final(self).view == (FieldOfView {
                dir_x: compass(dir as int).0 as i16,
                dir_y: compass(dir as int).1 as i16,
                ..old(self).view
            }),
            final(self).x == clamp_i32(old(self).x + old(self).speed * compass(dir as int).0),
            final(self).y == clamp_i32(old(self).y + old(self).speed * compass(dir as int).1),
            final(self).memory == old(self).memory,
            final(self).id == old(self).id,
            final(self).speed == old(self).speed,
            final(self).sight_range == old(self).sight_range,
            final(self).energy == old(self).energy,
            final(self).age == old(self).age,
            final(self).beast_type == old(self).beast_type,
    {
        let (dx, dy): (i64, i64) = if dir == 0 {
            (1, 0)
        } else if dir == 1 {
            (1, 1)
        } else if dir == 2 {
            (0, 1)
        } else if dir == 3 {
            (-1, 1)
        } else if dir == 4 {
            (-1, 0)
        } else if dir == 5 {
            (-1, -1)
        } else if dir == 6 {
            (0, -1)
        } else {
            (1, -1)
        };
        self.view = FieldOfView { dir_x: dx as i16, dir_y: dy as i16, ..self.view };
        let speed = self.speed as i64;
        self.x = clamp(self.x as i64 + speed * dx);
        self.y = clamp(self.y as i64 + speed * dy);
    }

    /// Faces a random compass direction and moves along it.
    pub fn move_randomly(&mut self)
        requires
            old(self).wf(),
        ensures
            final(self).wf(),
            final(self).moved_one_step_from(*old(self)),
            final(self).view.cos_num == old(self).view.cos_num,
            final(self).view.cos_den == old(self).view.cos_den,
            final(self).memory == old(self).memory,
            final(self).id == old(self).id,
            final(self).beast_type == old(self).beast_type,
            final(self).speed == old(self).speed,
            final(self).sight_range == old(self).sight_range,
            final(self).energy == old(self).energy,
            final(self).age == old(self).age,
    {
        let dir = random_below(8);
        self.move_toward(dir);
    }

    /// One tick of this beast's life: its memory decays, it notes what it
    /// sees in `snapshot`, it moves, grows a tick older and spends one unit
    /// of energy.
    ///
    /// The memory is aged before the tick's perceptions are taken in, so a
    /// sighting made now is never aged out in the same tick, and an entity
    /// seen once lasts exactly `memory.duration` ticks.
    pub fn step(&mut self, snapshot: &Vec<Sighting>)
        requires
            old(self).wf(),
        ensures
            final(self).wf(),
            final(self).memory@ == old(self).perceived(snapshot@, aged(old(self).memory@)),
            final(self).memory.duration == old(self).memory.duration,
            final(self).id == old(self).id,
            final(self).beast_type == old(self).beast_type,
            final(self).speed == old(self).speed,
            final(self).sight_range == old(self).sight_range,
            final(self).view.cos_num == old(self).view.cos_num,
            final(self).view.cos_den == old(self).view.cos_den,
            final(self).moved_one_step_from(*old(self)),
            final(self).age == if old(self).age < u64::MAX {
                old(self).age + 1
            } else {
                old(self).age as int
            },
            final(self).energy == if old(self).energy > i64::MIN {
                old(self).energy - 1
            } else {
                old(self).energy as int
            },
    {
        let ghost start = *self;
        self.memory_forget();
        let ghost after_aging = *self;
        self.perceive(snapshot);
        proof {
            lemma_perceived_same_observer(after_aging, start, snapshot@, aged(start.memory@));
        }
        self.move_randomly();
        if self.age < u64::MAX {
            self.age += 1;
        }
        if self.energy > i64::MIN {
            self.energy -= 1;
        }
    }
}

proof fn lemma_perceived_same_observer(a: Beast, b: Beast, snapshot: Seq<Sighting>, mem: Seq<MemoryEntry>)
    requires
        a.id == b.id,
        a.x == b.x,
        a.y == b.y,
        a.view == b.view,
        a.sight_range == b.sight_range,
        a.memory.duration == b.memory.duration,
    ensures
        a.perceived(snapshot, mem) == b.perceived(snapshot, mem),
    decreases snapshot.len(),
{
    if snapshot.len() > 0 {
        lemma_perceived_same_observer(a, b, snapshot.drop_last(), mem);
    }
}

pub(crate) fn clamp(v: i64) -> (r: i32)
    ensures
        r == clamp_i32(v as int),
{
    if v < i32::MIN as i64 {
        i32::MIN
    } else if v > i32::MAX as i64 {
        i32::MAX
    } else {
        v as i32
    }
}

/// A beast sees exactly what is both within its sight range and inside its
/// view cone.
pub proof fn lemma_in_view_is_range_and_direction(b: Beast, x: int, y: int)
    ensures
        b.spec_in_view_of(x, y) == (b.spec_in_range_of(x, y) && b.spec_in_direction_of(x, y)),
{
}

/// A point straight ahead of a beast, anywhere on the ray along its heading
/// and within its sight range, is visible.
pub proof fn lemma_straight_ahead_visible(b: Beast, x: int, y: int)
    requires
        b.view.wf(),
        (x - b.x) * b.view.dir_y == (y - b.y) * b.view.dir_x,
        (x - b.x) * b.view.dir_x + (y - b.y) * b.view.dir_y >= 0,
        b.spec_in_range_of(x, y),
    ensures
        b.spec_in_view_of(x, y),
{
    lemma_heading_ray_in_cone(b.view, x - b.x, y - b.y);
}

/// A point whose direction from a beast is turned further from its heading
/// than the half angle of its view is not visible, however near.
pub proof fn lemma_past_the_edge_not_visible(b: Beast, x: int, y: int)
    requires
        beyond_angle(
            x - b.x,
            y - b.y,
            b.view.dir_x as int,
            b.view.dir_y as int,
            b.view.cos_num as int,
            b.view.cos_den as int,
        ),
    ensures
        !b.spec_in_view_of(x, y),
{
}

} // verus!
