//! The world: plants and beasts, each with a stable identity, stepped one
//! tick at a time.
use vstd::prelude::*;
use crate::beast::{Beast, BeastType, clamp};
use crate::chance::random_below;
use crate::memory::{Sighting, EntityKind, aged, lookup, without};
use vstd::arithmetic::div_mod::{lemma_fundamental_div_mod, lemma_mod_pos_bound};

verus! {

/// Sprout chances are given in parts per million per tick.
pub const SPROUT_SCALE: u64 = 1_000_000;

pub struct Plant {
    pub id: u64,
    pub origin_x: i32,
    pub origin_y: i32,
    pub cell_width: u32,
    pub cell_height: u32,
    pub x: i32,
    pub y: i32,
    pub energy: u32,
    pub sprouted: bool,
    pub sprout_rate: u32,
}

impl Plant {
    /// The plant's cell lies inside the range of `i32`.
    pub open spec fn wf(&self) -> bool {
        self.origin_x + self.cell_width <= i32::MAX && self.origin_y + self.cell_height
            <= i32::MAX
    }

    /// An unsprouted plant with 100 energy whose cell starts at `location`
    /// and spans `grid_size`; it sprouts with a chance of `sprout_rate` per
    /// million each tick.
    pub fn new(id: u64, location: (i32, i32), grid_size: (u32, u32), sprout_rate: u32) -> (p:
        Self)
        requires
            location.0 + grid_size.0 <= i32::MAX,
            location.1 + grid_size.1 <= i32::MAX,
        ensures
            p.wf(),
            p.id == id,
            p.origin_x == location.0,
            p.origin_y == location.1,
            p.cell_width == grid_size.0,
            p.cell_height == grid_size.1,
            p.x == location.0,
            p.y == location.1,
            p.energy == 100,
            !p.sprouted,
            p.sprout_rate == sprout_rate,
    {
        Plant {
            id,
            origin_x: location.0,
            origin_y: location.1,
            cell_width: grid_size.0,
            cell_height: grid_size.1,
            x: location.0,
            y: location.1,
            energy: 100,
            sprouted: false,
            sprout_rate,
        }
    }

    /// Growth given the draws of one tick: an unsprouted plant whose `chance`
    /// draw falls under its sprout rate sprouts at offset (dx, dy) in its cell.
    pub fn grow(&mut self, chance: u64, dx: u64, dy: u64)
        requires
            old(self).wf(),
            dx <= old(self).cell_width,
            dy <= old(self).cell_height,
        ensures
            final(self).wf(),
            ({
                let p = *old(self);
                if !p.sprouted && chance < p.sprout_rate {
                    *final(self) == (Plant {
                        x: (p.origin_x + dx) as i32,
                        y: (p.origin_y + dy) as i32,
                        sprouted: true,
                        ..p
                    })
                } else {
                    *final(self) == p
                }
            }),
    {
        if !self.sprouted && chance < self.sprout_rate as u64 {
            self.x = (self.origin_x as i64 + dx as i64) as i32;
            self.y = (self.origin_y as i64 + dy as i64) as i32;
            self.sprouted = true;
        }
    }

    /// This plant is `p0` after one tick of growth, for some draw: either
    /// unchanged, or `p0` unsprouted and now sprouted somewhere in its cell.
    pub open spec fn grown_from(&self, p0: Plant) -> bool {
        ||| *self == p0
        ||| !p0.sprouted && exists|dx: int, dy: int|
            0 <= dx <= p0.cell_width && 0 <= dy <= p0.cell_height && #[trigger] sprouted_at(
                p0,
                dx,
                dy,
            ) == *self
    }

    /// One tick of growth with random draws.
    pub fn step(&mut self)
        requires
            old(self).wf(),
        ensures
            final(self).wf(),
            final(self).grown_from(*old(self)),
    {
        let chance = random_below(SPROUT_SCALE);
        let dx = random_below(if self.cell_width == 0 {
            1
        } else {
            self.cell_width as u64
        });
        let dy = random_below(if self.cell_height == 0 {
            1
        } else {
            self.cell_height as u64
        });
        self.grow(chance, dx, dy);
        proof {
            if *self != *old(self) {
                assert(sprouted_at(*old(self), dx as int, dy as int) == *self);
            }
        }
    }
}

/// `p` sprouted at offset (dx, dy) in its cell.
pub open spec fn sprouted_at(p: Plant, dx: int, dy: int) -> Plant {
    Plant { x: (p.origin_x + dx) as i32, y: (p.origin_y + dy) as i32, sprouted: true, ..p }
}

pub enum Entity {
    Plant(Plant),
    Beast(Beast),
}

impl Entity {
    pub open spec fn wf(&self) -> bool {
        match self {
            Entity::Plant(p) => p.wf(),
            Entity::Beast(b) => b.wf(),
        }
    }

    pub open spec fn spec_id(&self) -> u64 {
        match self {
            Entity::Plant(p) => p.id,
            Entity::Beast(b) => b.id,
        }
    }

    /// The position others perceive the entity at.
    pub open spec fn spec_x(&self) -> int {
        match self {
            Entity::Plant(p) => p.x as int,
            Entity::Beast(b) => b.x as int,
        }
    }

    pub open spec fn spec_y(&self) -> int {
        match self {
            Entity::Plant(p) => p.y as int,
            Entity::Beast(b) => b.y as int,
        }
    }

    pub open spec fn spec_sighting(&self) -> Sighting {
        match self {
            Entity::Plant(p) => Sighting { id: p.id, kind: EntityKind::Plant, x: p.x, y: p.y },
            Entity::Beast(b) => Sighting {
                id: b.id,
                kind: match b.beast_type {
                    BeastType::Herbivore => EntityKind::Herbivore,
                    BeastType::Carnivore => EntityKind::Carnivore,
                },
                x: b.x,
                y: b.y,
            },
        }
    }

    /// Beasts can always be perceived; plants only once sprouted.
    pub open spec fn spec_perceivable(&self) -> bool {
        match self {
            Entity::Plant(p) => p.sprouted,
            Entity::Beast(_) => true,
        }
    }

    /// A beast that remembers nothing of `id`; a plant, which remembers nothing.
    pub open spec fn forgot(&self, id: u64) -> bool {
        match self {
            Entity::Beast(b) => lookup(b.memory@, id).is_none(),
            Entity::Plant(_) => true,
        }
    }

    pub open spec fn is_unsprouted_plant(&self) -> bool {
        match self {
            Entity::Plant(p) => !p.sprouted,
            Entity::Beast(_) => false,
        }
    }

    /// A beast of type `t` that remembers nothing yet and whose sightings
    /// last `memory_time` ticks.
    pub open spec fn is_fresh_beast_of(&self, t: BeastType, memory_time: u32) -> bool {
        match self {
            Entity::Beast(b) => b.beast_type == t && b.memory@.len() == 0 && b.memory.duration
                == memory_time,
            Entity::Plant(_) => false,
        }
    }

    pub open spec fn is_beast_of(&self, t: BeastType) -> bool {
        match self {
            Entity::Beast(b) => b.beast_type == t,
            Entity::Plant(_) => false,
        }
    }

    pub fn id(&self) -> (r: u64)
        ensures
            r == self.spec_id(),
    {
        match self {
            Entity::Plant(p) => p.id,
            Entity::Beast(b) => b.id,
        }
    }

    pub fn sighting(&self) -> (s: Sighting)
        ensures
            s == self.spec_sighting(),
    {
        match self {
            Entity::Plant(p) => Sighting { id: p.id, kind: EntityKind::Plant, x: p.x, y: p.y },
            Entity::Beast(b) => b.sighting(),
        }
    }

    pub fn perceivable(&self) -> (r: bool)
        ensures
            r == self.spec_perceivable(),
    {
        match self {
            Entity::Plant(p) => p.sprouted,
            Entity::Beast(_) => true,
        }
    }
}

/// The sightings that a tick's perception works from: every perceivable
/// entity, in order.
pub open spec fn snapshot_of(s: Seq<Entity>) -> Seq<Sighting>
    decreases s.len(),
{
    if s.len() == 0 {
        Seq::empty()
    } else {
        let rest = snapshot_of(s.drop_last());
        if s.last().spec_perceivable() {
            rest.push(s.last().spec_sighting())
        } else {
            rest
        }
    }
}

/// The identities of the entities, in order.
pub open spec fn ids(s: Seq<Entity>) -> Seq<u64> {
    s.map_values(|e: Entity| e.spec_id())
}

/// The slot of grid cell (a, b), counting from `base` column by column,
/// holds that cell's unsprouted plant under the settings of `w`.
pub open spec fn cell_plant(s: Seq<Entity>, base: int, w: World, a: int, b: int) -> bool {
    match s[base + a * w.grid_size + b] {
        Entity::Plant(p) => {
            &&& !p.sprouted
            &&& p.origin_x == w.border + a * w.cell_width
            &&& p.origin_y == w.border + b * w.cell_height
            &&& p.x == p.origin_x
            &&& p.y == p.origin_y
            &&& p.cell_width == w.cell_width
            &&& p.cell_height == w.cell_height
            &&& p.sprout_rate == w.sprout_rate
            &&& p.energy == 100
        },
        Entity::Beast(_) => false,
    }
}

proof fn lemma_slot_before(a: int, b: int, gx: int, gy: int, g: int)
    requires
        0 <= a,
        0 <= b < g,
        0 <= gy,
        a < gx || (a == gx && b < gy),
    ensures
        a * g + b < gx * g + gy,
{
    if a < gx {
        assert(a * g + b < gx * g + gy) by (nonlinear_arith)
            requires 0 <= b < g, a < gx, 0 <= gy;
    }
}

/// `after` is `before` with `id` gone from its memory, if it is a beast,
/// and otherwise as it was.
pub open spec fn purged_of(before: Entity, after: Entity, id: u64) -> bool {
    match (before, after) {
        (Entity::Plant(p0), Entity::Plant(p1)) => p1 == p0,
        (Entity::Beast(b0), Entity::Beast(b1)) => b1.same_but_memory(b0) && b1.memory@ == without(
            b0.memory@,
            id,
        ),
        _ => false,
    }
}

/// The position of the last `id` in `s`, or -1.
pub open spec fn last_index_of(s: Seq<u64>, id: u64) -> int
    decreases s.len(),
{
    if s.len() == 0 {
        -1
    } else if s.last() == id {
        s.len() - 1
    } else {
        last_index_of(s.drop_last(), id)
    }
}

proof fn lemma_last_index_of(s: Seq<u64>, id: u64)
    ensures
        -1 <= last_index_of(s, id) < s.len(),
        last_index_of(s, id) >= 0 ==> s[last_index_of(s, id)] == id,
        last_index_of(s, id) == -1 ==> forall|i: int| 0 <= i < s.len() ==> s[i] != id,
    decreases s.len(),
{
    if s.len() > 0 {
        lemma_last_index_of(s.drop_last(), id);
        if s.last() != id {
            assert forall|i: int| 0 <= i < s.len() && last_index_of(s, id) == -1 implies s[i] != id by {
                if i < s.len() - 1 {
                    assert(s[i] == s.drop_last()[i]);
                }
            }
        }
    }
}

/// `after` is what one tick made of `before`, given the tick's snapshot: the
/// kind stays; a plant grows as `Plant::step` allows; a beast keeps its
/// identity, type, speed, sight range and view width, moves one compass step,
/// its memory is aged and then takes in what it sees, its age goes up and its
/// energy down by one (both saturating).
pub open spec fn stepped(before: Entity, after: Entity, snapshot: Seq<Sighting>) -> bool {
    match (before, after) {
        (Entity::Plant(p0), Entity::Plant(p1)) => p1.grown_from(p0),
        (Entity::Beast(b0), Entity::Beast(b1)) => {
            &&& b1.id == b0.id
            &&& b1.beast_type == b0.beast_type
            &&& b1.speed == b0.speed
            &&& b1.sight_range == b0.sight_range
            &&& b1.view.cos_num == b0.view.cos_num
            &&& b1.view.cos_den == b0.view.cos_den
            &&& b1.moved_one_step_from(b0)
            &&& b1.memory@ == b0.perceived(snapshot, aged(b0.memory@))
            &&& b1.memory.duration == b0.memory.duration
            &&& b1.age == if b0.age < u64::MAX {
                b0.age + 1
            } else {
                b0.age as int
            }
            &&& b1.energy == if b0.energy > i64::MIN {
                b0.energy - 1
            } else {
                b0.energy as int
            }
        },
        _ => false,
    }
}

/// `e` carrying identity `id` instead of its own.
pub open spec fn with_id(e: Entity, id: u64) -> Entity {
    match e {
        Entity::Plant(p) => Entity::Plant(Plant { id, ..p }),
        Entity::Beast(b) => Entity::Beast(Beast { id, ..b }),
    }
}

/// Some beast of type `t` is among the entities.
pub open spec fn has_beast_of(s: Seq<Entity>, t: BeastType) -> bool {
    exists|i: int| 0 <= i < s.len() && #[trigger] s[i].is_beast_of(t)
}

pub struct World {
    pub entities: Vec<Entity>,
    pub width: u32,
    pub height: u32,
    pub grid_size: u32,
    pub border: u32,
    pub cell_width: u32,
    pub cell_height: u32,
    pub plant_energy: u32,
    pub sprout_rate: u32,
    pub beast_memory_time: u32,
    pub next_id: u64,
}

impl World {
    /// Every entity is well formed and has an identity of its own, below
    /// `next_id`; the plant grid fits inside the range of `i32`.
    pub open spec fn wf(&self) -> bool {
        &&& self.width <= i32::MAX
        &&& self.height <= i32::MAX
        &&& self.border + self.grid_size * self.cell_width <= i32::MAX
        &&& self.border + self.grid_size * self.cell_height <= i32::MAX
        &&& forall|i: int|
            0 <= i < self.entities@.len() ==> #[trigger] self.entities@[i].wf()
                && self.entities@[i].spec_id() < self.next_id
        &&& forall|i: int, j: int|
            0 <= i < self.entities@.len() && 0 <= j < self.entities@.len() && i != j
                ==> #[trigger] self.entities@[i].spec_id() != #[trigger] self.entities@[j].spec_id()
    }

    /// An empty world. The plant grid splits the area inside the border into
    /// `plant_grid` cells a side; sprout chances are per million.
    pub fn new(
        width: u32,
        height: u32,
        plant_grid: u32,
        border: u32,
        plant_energy: u32,
        sprout_rate: u32,
        beast_memory_time: u32,
    ) -> (w: Self)
        requires
            width <= i32::MAX,
            height <= i32::MAX,
            border <= i32::MAX,
        ensures
            w.wf(),
            w.entities@.len() == 0,
            w.width == width,
            w.height == height,
            w.grid_size == plant_grid,
            w.border == border,
            w.cell_width == cell_size(width, border, plant_grid),
            w.cell_height == cell_size(height, border, plant_grid),
            w.plant_energy == plant_energy,
            w.sprout_rate == sprout_rate,
            w.beast_memory_time == beast_memory_time,
            w.next_id == 0,
    {
        let cell_width = grid_cell(width, border, plant_grid);
        let cell_height = grid_cell(height, border, plant_grid);
        World {
            entities: Vec::new(),
            width,
            height,
            grid_size: plant_grid,
            border,
            cell_width,
            cell_height,
            plant_energy,
            sprout_rate,
            beast_memory_time,
            next_id: 0,
        }
    }

    /// Adds the entity under a fresh identity, which it returns.
    pub fn add_entity(&mut self, entity: Entity) -> (id: u64)
        requires
            old(self).wf(),
            entity.wf(),
            old(self).next_id < u64::MAX,
        ensures
            final(self).wf(),
            id == old(self).next_id,
            final(self).next_id == old(self).next_id + 1,
            final(self).entities@ == old(self).entities@.push(with_id(entity, id)),
            final(self).same_settings(*old(self)),
    {
        let id = self.next_id;
        let ghost old_entity = entity;
        let mut entity = entity;
        match &mut entity {
            Entity::Plant(p) => {
                p.id = id;
            },
            Entity::Beast(b) => {
                b.id = id;
            },
        }
        let ghost before = old(self).entities@;
        proof {
            assert(entity == with_id(old_entity, id));
            assert(entity.wf());
        }
        self.entities.push(entity);
        self.next_id = id + 1;
        proof {
            let s = self.entities@;
            assert forall|i: int| 0 <= i < s.len() implies #[trigger] s[i].wf() && s[i].spec_id()
                < self.next_id by {
                if i < before.len() {
                    assert(s[i] == before[i]);
                    assert(before[i].wf() && before[i].spec_id() < id);
                } else {
                    assert(s[i] == entity);
                }
            }
            assert forall|i: int, j: int|
                0 <= i < s.len() && 0 <= j < s.len() && i != j implies #[trigger] s[i].spec_id()
                != #[trigger] s[j].spec_id() by {
                if i < before.len() {
                    assert(s[i] == before[i]);
                    assert(before[i].wf() && before[i].spec_id() < id);
                } else {
                    assert(s[i] == entity);
                }
                if j < before.len() {
                    assert(s[j] == before[j]);
                    assert(before[j].wf() && before[j].spec_id() < id);
                } else {
                    assert(s[j] == entity);
                }
                if i < before.len() && j < before.len() {
                    assert(before[i].spec_id() != before[j].spec_id());
                }
            }
        }
        id
    }

    /// Whether some beast of type `beast_type` is in the world.
    pub fn contains_type(&self, beast_type: BeastType) -> (r: bool)
        ensures
            r == has_beast_of(self.entities@, beast_type),
    {
        let n = self.entities.len();
        let mut i: usize = 0;
        while i < n
            invariant
                n == self.entities@.len(),
                i <= n,
                forall|j: int| 0 <= j < i ==> !#[trigger] self.entities@[j].is_beast_of(beast_type),
            decreases n - i,
        {
            match &self.entities[i] {
                Entity::Beast(b) => {
                    if b.beast_type == beast_type {
                        assert(self.entities@[i as int].is_beast_of(beast_type));
                        return true;
                    }
                },
                Entity::Plant(_) => {},
            }
            i += 1;
        }
        false
    }

    /// Whether the episode goes on: both kinds of beast are still about, and
    /// the display, where there is one (`Some(open)`), is still open.
    pub fn continue_simulation(&self, window_open: Option<bool>) -> (r: bool)
        ensures
            r == (has_beast_of(self.entities@, BeastType::Herbivore) && has_beast_of(
                self.entities@,
                BeastType::Carnivore,
            ) && window_open != Some(false)),
    {
        let alive = self.contains_type(BeastType::Herbivore) && self.contains_type(
            BeastType::Carnivore,
        );
        match window_open {
            Some(open) => alive && open,
            None => alive,
        }
    }

    /// Empties the world; identities start again from zero.
    fn clear_world(&mut self)
        requires
            old(self).wf(),
        ensures
            final(self).wf(),
            final(self).entities@.len() == 0,
            final(self).next_id == 0,
            final(self).same_settings(*old(self)),
    {
        self.entities.clear();
        self.next_id = 0;
    }

    /// Adds a fresh beast of the given type at (x, y).
    pub fn add_beast_at(&mut self, beast_type: BeastType, x: i32, y: i32) -> (id: u64)
        requires
            old(self).wf(),
            old(self).next_id < u64::MAX,
        ensures
            final(self).wf(),
            id == old(self).next_id,
            final(self).next_id == old(self).next_id + 1,
            final(self).entities@.len() == old(self).entities@.len() + 1,
            forall|i: int|
                0 <= i < old(self).entities@.len() ==> #[trigger] final(self).entities@[i] == old(self).entities@[i],
            final(self).entities@.last().is_fresh_beast_of(beast_type, old(self).beast_memory_time),
            final(self).entities@.last().spec_id() == id,
            final(self).entities@.last().spec_x() == x,
            final(self).entities@.last().spec_y() == y,
            final(self).same_settings(*old(self)),
    {
        let b = Beast::new(self.next_id, beast_type, x, y, self.beast_memory_time);
        self.add_entity(Entity::Beast(b))
    }

    /// Adds a fresh beast of the given type at a random spot, offset by the
    /// border from the origin.
    fn add_beast(&mut self, beast_type: BeastType) -> (id: u64)
        requires
            old(self).wf(),
            old(self).next_id < u64::MAX,
        ensures
            final(self).wf(),
            id == old(self).next_id,
            final(self).next_id == old(self).next_id + 1,
            final(self).entities@.len() == old(self).entities@.len() + 1,
            forall|i: int|
                0 <= i < old(self).entities@.len() ==> #[trigger] final(self).entities@[i] == old(self).entities@[i],
            final(self).entities@.last().is_fresh_beast_of(beast_type, old(self).beast_memory_time),
            final(self).same_settings(*old(self)),
    {
        let rx = random_below(if self.width == 0 {
            1
        } else {
            self.width as u64
        });
        let ry = random_below(if self.height == 0 {
            1
        } else {
            self.height as u64
        });
        let x = clamp(self.border as i64 + rx as i64);
        let y = clamp(self.border as i64 + ry as i64);
        self.add_beast_at(beast_type, x, y)
    }

    /// Adds one unsprouted plant at the corner of every cell of the grid,
    /// column by column.
    fn add_plant_uniformly(&mut self)
        requires
            old(self).wf(),
            old(self).next_id + old(self).grid_size * old(self).grid_size < u64::MAX,
        ensures
            final(self).wf(),
            final(self).entities@.len() == old(self).entities@.len() + old(self).grid_size
                * old(self).grid_size,
            final(self).next_id == old(self).next_id + old(self).grid_size * old(self).grid_size,
            forall|i: int|
                0 <= i < old(self).entities@.len() ==> #[trigger] final(self).entities@[i] == old(self).entities@[i],
            forall|i: int|
                old(self).entities@.len() <= i < final(self).entities@.len() ==> #[trigger] final(self).entities@[i].is_unsprouted_plant(),
            forall|a: int, b: int|
                0 <= a < old(self).grid_size && 0 <= b < old(self).grid_size ==> #[trigger] cell_plant(
                    final(self).entities@,
                    old(self).entities@.len() as int,
                    *old(self),
                    a,
                    b,
                ),
            final(self).same_settings(*old(self)),
    {
        let g = self.grid_size;
        let ghost start = *self;
        let ghost base = self.entities@.len() as int;
        let mut gx: u32 = 0;
        while gx < g
            invariant
                self.wf(),
                self.same_settings(start),
                g == start.grid_size,
                gx <= g,
                self.entities@.len() == start.entities@.len() + gx * g,
                self.next_id == start.next_id + gx * g,
                start.next_id + g * g < u64::MAX,
                forall|i: int|
                    0 <= i < start.entities@.len() ==> #[trigger] self.entities@[i]
                        == start.entities@[i],
                forall|i: int|
                    start.entities@.len() <= i < self.entities@.len() ==> #[trigger] self.entities@[i].is_unsprouted_plant(),
                base == start.entities@.len(),
                forall|a: int, b: int|
                    0 <= a < gx && 0 <= b < g ==> #[trigger] cell_plant(self.entities@, base, start, a, b),
            decreases g - gx,
        {
            let mut gy: u32 = 0;
            proof {
                assert(gx * g + g <= g * g) by (nonlinear_arith)
                    requires gx < g;
            }
            while gy < g
                invariant
                    self.wf(),
                    self.same_settings(start),
                    g == start.grid_size,
                    gx < g,
                    gy <= g,
                    gx * g + g <= g * g,
                    self.entities@.len() == start.entities@.len() + gx * g + gy,
                    self.next_id == start.next_id + gx * g + gy,
                    start.next_id + g * g < u64::MAX,
                    forall|i: int|
                        0 <= i < start.entities@.len() ==> #[trigger] self.entities@[i]
                            == start.entities@[i],
                    forall|i: int|
                        start.entities@.len() <= i < self.entities@.len() ==> #[trigger] self.entities@[i].is_unsprouted_plant(),
                    base == start.entities@.len(),
                    forall|a: int, b: int|
                        0 <= a < g && 0 <= b < g && (a < gx || (a == gx && b < gy)) ==> #[trigger] cell_plant(
                            self.entities@,
                            base,
                            start,
                            a,
                            b,
                        ),
                decreases g - gy,
            {
                proof {
                    assert(self.border + gx * self.cell_width + self.cell_width <= self.border
                        + g * self.cell_width) by (nonlinear_arith)
                        requires gx < g;
                    assert(self.border + gy * self.cell_height + self.cell_height <= self.border
                        + g * self.cell_height) by (nonlinear_arith)
                        requires gy < g;
                }
                let ox = (self.border as u64 + gx as u64 * self.cell_width as u64) as i32;
                let oy = (self.border as u64 + gy as u64 * self.cell_height as u64) as i32;
                let plant = Plant::new(
                    self.next_id,
                    (ox, oy),
                    (self.cell_width, self.cell_height),
                    self.sprout_rate,
                );
                let ghost before = self.entities@;
                self.add_entity(Entity::Plant(plant));
                proof {
                    assert forall|i: int|
                        start.entities@.len() <= i < self.entities@.len() implies #[trigger] self.entities@[i].is_unsprouted_plant() by {
                        if i < before.len() {
                            assert(self.entities@[i] == before[i]);
                        }
                    }
                    assert forall|a: int, b: int|
                        0 <= a < g && 0 <= b < g && (a < gx || (a == gx && b < gy + 1)) implies #[trigger] cell_plant(
                            self.entities@,
                            base,
                            start,
                            a,
                            b,
                        ) by {
                        if a == gx && b == gy {
                            assert(base + a * g + b == before.len());
                        } else {
                            lemma_slot_before(a, b, gx as int, gy as int, g as int);
                            assert(self.entities@[base + a * g + b] == before[base + a * g + b]);
                            assert(cell_plant(before, base, start, a, b));
                        }
                    }
                }
                gy += 1;
            }
            proof {
                assert(gx * g + g == (gx + 1) * g) by (nonlinear_arith);
            }
            gx += 1;
        }
    }

    /// Starts a new episode: the world is emptied, then filled with
    /// `herbivores` herbivores and `carnivores` carnivores at random spots
    /// and one unsprouted plant per grid cell, column by column, in that order. The plant count
    /// follows from the grid; `_plants` is not used.
    pub fn restart_world(&mut self, _plants: usize, herbivores: usize, carnivores: usize)
        requires
            old(self).wf(),
            herbivores + carnivores + old(self).grid_size * old(self).grid_size < u64::MAX,
        ensures
            final(self).wf(),
            final(self).same_settings(*old(self)),
            final(self).entities@.len() == herbivores + carnivores + old(self).grid_size * old(self).grid_size,
            forall|i: int|
                0 <= i < herbivores ==> #[trigger] final(self).entities@[i].is_fresh_beast_of(BeastType::Herbivore, old(self).beast_memory_time),
            forall|i: int|
                herbivores <= i < herbivores + carnivores ==> #[trigger] final(self).entities@[i].is_fresh_beast_of(BeastType::Carnivore, old(self).beast_memory_time),
            forall|i: int|
                herbivores + carnivores <= i < final(self).entities@.len() ==> #[trigger] final(self).entities@[i].is_unsprouted_plant(),
            forall|a: int, b: int|
                0 <= a < old(self).grid_size && 0 <= b < old(self).grid_size ==> #[trigger] cell_plant(
                    final(self).entities@,
                    herbivores + carnivores,
                    *old(self),
                    a,
                    b,
                ),
    {
        self.clear_world();
        let ghost start = *self;
        let ghost g = self.grid_size as int;
        let mut i: usize = 0;
        while i < herbivores
            invariant
                self.wf(),
                self.same_settings(start),
                i <= herbivores,
                herbivores + carnivores + g * g < u64::MAX,
                g == self.grid_size,
                self.entities@.len() == i,
                self.next_id == i,
                forall|j: int|
                    0 <= j < i ==> #[trigger] self.entities@[j].is_fresh_beast_of(BeastType::Herbivore, start.beast_memory_time),
            decreases herbivores - i,
        {
            proof {
                assert(0 <= g * g) by (nonlinear_arith);
            }
            self.add_beast(BeastType::Herbivore);
            i += 1;
        }
        let mut i: usize = 0;
        while i < carnivores
            invariant
                self.wf(),
                self.same_settings(start),
                i <= carnivores,
                herbivores + carnivores + g * g < u64::MAX,
                g == self.grid_size,
                self.entities@.len() == herbivores + i,
                self.next_id == herbivores + i,
                forall|j: int|
                    0 <= j < herbivores ==> #[trigger] self.entities@[j].is_fresh_beast_of(BeastType::Herbivore, start.beast_memory_time),
                forall|j: int|
                    herbivores <= j < herbivores + i ==> #[trigger] self.entities@[j].is_fresh_beast_of(BeastType::Carnivore, start.beast_memory_time),
            decreases carnivores - i,
        {
            proof {
                assert(0 <= g * g) by (nonlinear_arith);
            }
            self.add_beast(BeastType::Carnivore);
            i += 1;
        }
        let ghost mid = *self;
        self.add_plant_uniformly();
        proof {
            assert forall|a: int, b: int|
                0 <= a < old(self).grid_size && 0 <= b < old(self).grid_size implies #[trigger] cell_plant(
                    self.entities@,
                    herbivores + carnivores,
                    *old(self),
                    a,
                    b,
                ) by {
                assert(cell_plant(self.entities@, mid.entities@.len() as int, mid, a, b));
            }
        }
    }

    /// Takes the entity with identity `id` out of the world and out of every
    /// beast's memory. Other entities keep their order.
    pub fn remove_entity(&mut self, id: u64)
        requires
            old(self).wf(),
        ensures
            final(self).wf(),
            final(self).same_settings(*old(self)),
            final(self).next_id == old(self).next_id,
            ({
                let k = last_index_of(ids(old(self).entities@), id);
                if k >= 0 {
                    ids(final(self).entities@) == ids(old(self).entities@).remove(k)
                } else {
                    ids(final(self).entities@) == ids(old(self).entities@)
                }
            }),
            ({
                let k = last_index_of(ids(old(self).entities@), id);
                &&& final(self).entities@.len() == old(self).entities@.len() - if k >= 0 {
                    1int
                } else {
                    0int
                }
                &&& forall|i: int|
                    0 <= i < final(self).entities@.len() ==> purged_of(
                        old(self).entities@[if k >= 0 && i >= k {
                            i + 1
                        } else {
                            i
                        }],
                        #[trigger] final(self).entities@[i],
                        id,
                    )
            }),
            forall|i: int|
                0 <= i < final(self).entities@.len() ==> #[trigger] final(self).entities@[i].spec_id() != id,
            forall|i: int|
                0 <= i < final(self).entities@.len() ==> #[trigger] final(self).entities@[i].forgot(id),
    {
        let ghost start = *self;
        let n = self.entities.len();
        let mut i: usize = 0;
        while i < n
            invariant
                self.wf(),
                self.same_settings(start),
                self.next_id == start.next_id,
                n == self.entities@.len(),
                i <= n,
                ids(self.entities@) == ids(start.entities@),
                forall|j: int| 0 <= j < i ==> #[trigger] self.entities@[j].forgot(id),
                forall|j: int|
                    0 <= j < i ==> purged_of(start.entities@[j], #[trigger] self.entities@[j], id),
                forall|j: int| i <= j < n ==> #[trigger] self.entities@[j] == start.entities@[j],
            decreases n - i,
        {
            let ghost before = self.entities@;
            assert(self.entities@[i as int].wf());
            match &mut self.entities[i] {
                Entity::Beast(b) => {
                    b.remove_from_memory(id);
                },
                Entity::Plant(_) => {},
            }
            proof {
                assert(self.entities@[i as int].spec_id() == before[i as int].spec_id());
                assert(purged_of(start.entities@[i as int], self.entities@[i as int], id));
                assert(ids(self.entities@) =~= ids(before));
                assert forall|j: int| 0 <= j < self.entities@.len() implies #[trigger] self.entities@[j].wf()
                    && self.entities@[j].spec_id() < self.next_id by {
                    assert(before[j].wf());
                }
                assert forall|a: int, c: int|
                    0 <= a < self.entities@.len() && 0 <= c < self.entities@.len() && a != c implies #[trigger] self.entities@[a].spec_id()
                    != #[trigger] self.entities@[c].spec_id() by {
                    assert(ids(self.entities@)[a] == ids(before)[a]);
                    assert(ids(self.entities@)[c] == ids(before)[c]);
                    assert(before[a].spec_id() != before[c].spec_id());
                }
            }
            i += 1;
        }
        let ghost mid = self.entities@;
        let mut found: Option<usize> = None;
        let mut k: usize = 0;
        while k < n
            invariant
                n == self.entities@.len(),
                mid == self.entities@,
                k <= n,
                self.wf(),
                self.same_settings(start),
                self.next_id == start.next_id,
                ids(mid) == ids(start.entities@),
                forall|j: int| 0 <= j < n ==> #[trigger] mid[j].forgot(id),
                forall|j: int| 0 <= j < n ==> purged_of(start.entities@[j], #[trigger] mid[j], id),
                match found {
                    Some(f) => f < k && f as int == last_index_of(ids(mid).subrange(0, k as int), id),
                    None => last_index_of(ids(mid).subrange(0, k as int), id) == -1,
                },
            decreases n - k,
        {
            proof {
                assert(ids(mid).subrange(0, k + 1).drop_last() == ids(mid).subrange(0, k as int));
            }
            if self.entities[k].id() == id {
                found = Some(k);
            }
            k += 1;
        }
        proof {
            assert(ids(mid).subrange(0, n as int) == ids(mid));
            lemma_last_index_of(ids(mid), id);
        }
        match found {
            Some(f) => {
                self.entities.remove(f);
                proof {
                    assert(ids(self.entities@) =~= ids(mid).remove(f as int));
                    let s = self.entities@;
                    assert forall|j: int| 0 <= j < s.len() implies #[trigger] s[j].wf() && s[j].spec_id()
                        < self.next_id && s[j].spec_id() != id && s[j].forgot(id) by {
                        let jj = if j < f { j } else { j + 1 };
                        assert(s[j] == mid[jj]);
                        assert(mid[jj].wf() && mid[jj].forgot(id));
                        assert(mid[f as int].spec_id() != mid[jj].spec_id());
                        assert(purged_of(start.entities@[jj], mid[jj], id));
                    }
                    assert forall|a: int, c: int|
                        0 <= a < s.len() && 0 <= c < s.len() && a != c implies #[trigger] s[a].spec_id()
                        != #[trigger] s[c].spec_id() by {
                        let aa = if a < f { a } else { a + 1 };
                        let cc = if c < f { c } else { c + 1 };
                        assert(s[a] == mid[aa]);
                        assert(s[c] == mid[cc]);
                        assert(mid[aa].spec_id() != mid[cc].spec_id());
                    }
                }
            },
            None => {
                proof {
                    assert forall|j: int| 0 <= j < mid.len() implies #[trigger] mid[j].spec_id() != id by {
                        assert(ids(mid)[j] == mid[j].spec_id());
                    }
                }
            },
        }
    }

    /// The sightings of every perceivable entity, in order.
    pub fn snapshot(&self) -> (r: Vec<Sighting>)
        ensures
            r@ == snapshot_of(self.entities@),
    {
        let mut r: Vec<Sighting> = Vec::new();
        let n = self.entities.len();
        let mut i: usize = 0;
        while i < n
            invariant
                n == self.entities@.len(),
                i <= n,
                r@ == snapshot_of(self.entities@.subrange(0, i as int)),
            decreases n - i,
        {
            proof {
                assert(self.entities@.subrange(0, i + 1).drop_last() == self.entities@.subrange(
                    0,
                    i as int,
                ));
            }
            let e = &self.entities[i];
            if e.perceivable() {
                r.push(e.sighting());
            }
            i += 1;
        }
        proof {
            assert(self.entities@.subrange(0, n as int) == self.entities@);
        }
        r
    }

    /// One tick: every perception works from the same snapshot, taken before
    /// anything moves. Then each plant may sprout, and each beast ages its
    /// memory, notes what it sees, moves, grows older and spends energy.
    pub fn step(&mut self)
        requires
            old(self).wf(),
        ensures
            final(self).wf(),
            final(self).same_settings(*old(self)),
            final(self).next_id == old(self).next_id,
            final(self).entities@.len() == old(self).entities@.len(),
            forall|i: int|
                0 <= i < old(self).entities@.len() ==> stepped(
                    old(self).entities@[i],
                    #[trigger] final(self).entities@[i],
                    snapshot_of(old(self).entities@),
                ),
    {
        let snapshot = self.snapshot();
        let ghost start = *self;
        let n = self.entities.len();
        let mut i: usize = 0;
        while i < n
            invariant
                self.wf(),
                self.same_settings(start),
                self.next_id == start.next_id,
                n == self.entities@.len(),
                n == start.entities@.len(),
                i <= n,
                snapshot@ == snapshot_of(start.entities@),
                forall|j: int|
                    0 <= j < i ==> stepped(
                        start.entities@[j],
                        #[trigger] self.entities@[j],
                        snapshot@,
                    ),
                forall|j: int| i <= j < n ==> #[trigger] self.entities@[j] == start.entities@[j],
            decreases n - i,
        {
            let ghost before = self.entities@;
            assert(self.entities@[i as int].wf());
            match &mut self.entities[i] {
                Entity::Plant(p) => {
                    p.step();
                },
                Entity::Beast(b) => {
                    b.step(&snapshot);
                },
            }
            proof {
                let s = self.entities@;
                assert(s[i as int].spec_id() == before[i as int].spec_id());
                assert forall|j: int| 0 <= j < s.len() implies #[trigger] s[j].wf() && s[j].spec_id()
                    < self.next_id by {
                    assert(before[j].wf());
                }
                assert forall|a: int, c: int|
                    0 <= a < s.len() && 0 <= c < s.len() && a != c implies #[trigger] s[a].spec_id()
                    != #[trigger] s[c].spec_id() by {
                    assert(before[a].spec_id() != before[c].spec_id());
                }
                assert forall|j: int| 0 <= j < i + 1 implies stepped(
                    start.entities@[j],
                    #[trigger] s[j],
                    snapshot@,
                ) by {
                    if j < i {
                        assert(s[j] == before[j]);
                    }
                }
            }
            i += 1;
        }
    }

    /// The settings other than the entities are those of `o`.
    pub open spec fn same_settings(&self, o: World) -> bool {
        &&& self.width == o.width
        &&& self.height == o.height
        &&& self.grid_size == o.grid_size
        &&& self.border == o.border
        &&& self.cell_width == o.cell_width
        &&& self.cell_height == o.cell_height
        &&& self.plant_energy == o.plant_energy
        &&& self.sprout_rate == o.sprout_rate
        &&& self.beast_memory_time == o.beast_memory_time
    }
}

/// The side of a plant cell along an axis of length `len`.
pub open spec fn cell_size(len: u32, border: u32, grid: u32) -> u32 {
    if grid == 0 || len < 2 * border {
        0
    } else {
        ((len - 2 * border) / grid as int) as u32
    }
}

fn grid_cell(len: u32, border: u32, grid: u32) -> (c: u32)
    requires
        len <= i32::MAX,
        border <= i32::MAX,
    ensures
        c == cell_size(len, border, grid),
        border + grid * c <= i32::MAX,
{
    if grid == 0 || (len as u64) < 2 * (border as u64) {
        0
    } else {
        let inner = len - 2 * border;
        proof {
            lemma_fundamental_div_mod(inner as int, grid as int);
            lemma_mod_pos_bound(inner as int, grid as int);
        }
        inner / grid
    }
}

} // verus!
