//! One tick of the whole colony, phase by phase.
//!
//! A tick is movement, collision, foraging, trail spawn and trail decay, in
//! this order. The movement phase ends with a turn of each ant by an angle
//! that the caller works out from the pull of the trails: `begin_tick` moves
//! the ants and reports the pull, `finish_tick` takes the new headings and
//! runs the rest.

use vstd::prelude::*;
use crate::collision::{
    after_hits, answer_hits, contains_point, holds_point, resolve_collisions, resolved, Rect,
};
use crate::colony::{ants_valid, Ant, Food, Home, DIRECTION_ONE};
use crate::forage::{
    ants_after, deliveries, foods_after, forage_step, in_world, ownership_valid,
};
use crate::obstacle::{
    collide_tiles_with_rect, hits_among, index_of, on_grid, ObstacleMap, CELLS,
};
use crate::schedule::{spawn_trails, with_emissions};
use crate::steer::{
    advance, after_walk, draw_spread, draw_wander, moved, spread_of, Sensors, Steering,
};
use crate::trail::{decay_all, TrailField, TrailMarker, STRENGTH_ONE};

verus! {

/// The number of pieces in a cluster of food.
pub const CLUSTER_SIZE: u64 = 40;

/// How far from the middle of a cluster a piece lies at most, along each
/// axis.
pub const CLUSTER_RADIUS: i32 = 20_000;

/// The side of the box with which an ant hits obstacles.
pub const ANT_SIZE: i32 = 5_000;

/// The box of an ant.
pub open spec fn body_of(ant: Ant) -> Rect {
    Rect { x: ant.x, y: ant.y, width: ANT_SIZE, height: ANT_SIZE }
}

/// An ant with the heading that the caller has worked out for it. A heading
/// with a component longer than one whole is not taken.
pub open spec fn after_turn(ant: Ant, heading: (i32, i32)) -> Ant {
    if -DIRECTION_ONE <= heading.0 <= DIRECTION_ONE && -DIRECTION_ONE <= heading.1
        <= DIRECTION_ONE {
        Ant {
            id: ant.id,
            x: ant.x,
            y: ant.y,
            dir_x: heading.0,
            dir_y: heading.1,
            carry_x: ant.carry_x,
            carry_y: ant.carry_y,
            carried_item: ant.carried_item,
        }
    } else {
        ant
    }
}

/// An ant after the collision phase: its heading has answered first the
/// walls, in their order, then the blocked cells that it hits, in theirs.
pub open spec fn after_collisions(ant: Ant, walls: Seq<Rect>, cells: Seq<bool>) -> Ant {
    let by_walls = resolved(body_of(ant), (ant.dir_x as int, ant.dir_y as int), walls);
    let by_cells = after_hits(by_walls, hits_among(cells, body_of(ant), CELLS as int));
    Ant {
        id: ant.id,
        x: ant.x,
        y: ant.y,
        dir_x: by_cells.0 as i32,
        dir_y: by_cells.1 as i32,
        carry_x: ant.carry_x,
        carry_y: ant.carry_y,
        carried_item: ant.carried_item,
    }
}

/// Whether a pull that was computed is the one that the markers exert.
pub open spec fn pull_is(computed: Option<(i128, i128)>, exerted: Option<(int, int)>) -> bool {
    match computed {
        Some(v) => exerted == Some((v.0 as int, v.1 as int)),
        None => exerted is None,
    }
}

/// Whether an angle is one that an ant with the widest wandering angle
/// `wandering` can wander off by: the angle that some random number gives.
pub open spec fn wanders_within(angle: i64, wandering: i32) -> bool {
    &&& exists|draw: u32| angle == spread_of(wandering as int, draw as int)
    &&& wandering >= 0 ==> -wandering <= angle <= wandering
    &&& wandering <= 0 ==> wandering <= angle <= -wandering
}

/// The movement phase: every ant takes one step, then reads its sensors
/// where it has arrived, and an angle to wander off by is drawn for it.
/// Returns the pull and the angle for each ant, in the order of the ants; no
/// ant's step or reading depends on another ant.
pub fn movement_phase(
    ants: &mut Vec<Ant>,
    field: &TrailField,
    sensors: &Sensors,
    speed: i32,
    ticks_per_second: u32,
    wandering: i32,
) -> (pulls: Vec<Steering>)
    requires
        ants_valid(old(ants)@),
        field.wf(),
        sensors.wf(),
        ticks_per_second > 0,
    ensures
        final(ants)@.len() == old(ants)@.len(),
        pulls@.len() == old(ants)@.len(),
        ants_valid(final(ants)@),
        forall|i: int|
            0 <= i < old(ants)@.len() ==> #[trigger] final(ants)@[i] == moved(
                old(ants)@[i],
                speed,
                ticks_per_second,
            ),
        forall|i: int|
            0 <= i < old(ants)@.len() ==> pull_is(
                (#[trigger] pulls@[i]).pull,
                sensors.turning_of(final(ants)@[i], field@),
            ),
        forall|i: int|
            0 <= i < old(ants)@.len() ==> wanders_within((#[trigger] pulls@[i]).wander, wandering),
{
    let mut pulls: Vec<Steering> = Vec::new();
    let mut i: usize = 0;
    while i < ants.len()
        invariant
            i <= ants.len(),
            ants@.len() == old(ants)@.len(),
            pulls@.len() == i,
            field.wf(),
            sensors.wf(),
            ticks_per_second > 0,
            ants_valid(ants@),
            forall|j: int| i <= j < ants@.len() ==> #[trigger] ants@[j] == old(ants)@[j],
            forall|j: int|
                0 <= j < i ==> #[trigger] ants@[j] == moved(old(ants)@[j], speed, ticks_per_second),
            forall|j: int|
                0 <= j < i ==> pull_is(
                    (#[trigger] pulls@[j]).pull,
                    sensors.turning_of(ants@[j], field@),
                ),
            forall|j: int| 0 <= j < i ==> wanders_within((#[trigger] pulls@[j]).wander, wandering),
        decreases ants.len() - i,
    {
        let mut ant = ants[i];
        advance(&mut ant, speed, ticks_per_second);
        let pull = sensors.steer(&ant, field);
        let wander = draw_wander(wandering);
        ants.set(i, ant);
        pulls.push(Steering { pull, wander });
        i += 1;
    }
    pulls
}

/// Gives each ant the heading that the caller has worked out for it. An
/// ant for which there is none, or none that is valid, keeps its own.
pub fn turn_phase(ants: &mut Vec<Ant>, headings: &Vec<(i32, i32)>)
    requires
        ants_valid(old(ants)@),
    ensures
        final(ants)@.len() == old(ants)@.len(),
        ants_valid(final(ants)@),
        forall|i: int|
            0 <= i < old(ants)@.len() ==> #[trigger] final(ants)@[i] == (if i < headings@.len() {
                after_turn(old(ants)@[i], headings@[i])
            } else {
                old(ants)@[i]
            }),
{
    let mut i: usize = 0;
    while i < ants.len() && i < headings.len()
        invariant
            i <= ants.len(),
            i <= headings.len(),
            ants@.len() == old(ants)@.len(),
            ants_valid(ants@),
            forall|j: int| i <= j < ants@.len() ==> #[trigger] ants@[j] == old(ants)@[j],
            forall|j: int|
                0 <= j < i ==> #[trigger] ants@[j] == after_turn(old(ants)@[j], headings@[j]),
        decreases ants.len() - i,
    {
        let heading = headings[i];
        if -DIRECTION_ONE <= heading.0 && heading.0 <= DIRECTION_ONE && -DIRECTION_ONE
            <= heading.1 && heading.1 <= DIRECTION_ONE {
            let mut ant = ants[i];
            ant.dir_x = heading.0;
            ant.dir_y = heading.1;
            ants.set(i, ant);
        }
        i += 1;
    }
}

/// The collision phase: each ant's heading answers the walls and the
/// blocked cells that the ant's box hits. No ant moves.
pub fn collision_phase(ants: &mut Vec<Ant>, walls: &Vec<Rect>, map: &ObstacleMap)
    requires
        ants_valid(old(ants)@),
        map.wf(),
    ensures
        final(ants)@.len() == old(ants)@.len(),
        ants_valid(final(ants)@),
        forall|i: int|
            0 <= i < old(ants)@.len() ==> #[trigger] final(ants)@[i] == after_collisions(
                old(ants)@[i],
                walls@,
                map.cells(),
            ),
{
    let mut i: usize = 0;
    while i < ants.len()
        invariant
            i <= ants.len(),
            ants@.len() == old(ants)@.len(),
            map.wf(),
            ants_valid(ants@),
            forall|j: int| i <= j < ants@.len() ==> #[trigger] ants@[j] == old(ants)@[j],
            forall|j: int|
                0 <= j < i ==> #[trigger] ants@[j] == after_collisions(
                    old(ants)@[j],
                    walls@,
                    map.cells(),
                ),
        decreases ants.len() - i,
    {
        let mut ant = ants[i];
        let body = Rect { x: ant.x, y: ant.y, width: ANT_SIZE, height: ANT_SIZE };
        let by_walls = resolve_collisions(&body, ant.dir_x, ant.dir_y, walls);
        let faces = collide_tiles_with_rect(&body, map);
        let by_cells = answer_hits(by_walls.0, by_walls.1, &faces);
        ant.dir_x = by_cells.0;
        ant.dir_y = by_cells.1;
        ants.set(i, ant);
        i += 1;
    }
}

/// Whether two states of an ant differ at most in heading and load: the
/// place and what is carried over along each axis are the same.
pub open spec fn same_place(a: Ant, b: Ant) -> bool {
    &&& a.id == b.id
    &&& a.x == b.x
    &&& a.y == b.y
    &&& a.carry_x == b.carry_x
    &&& a.carry_y == b.carry_y
}

/// The square that a home fills on the ground: as wide as its radius is
/// long, with the home in the middle.
pub open spec fn ground_of(home: Home) -> Rect {
    Rect { x: home.x, y: home.y, width: home.radius, height: home.radius }
}

/// The homes whose square does not hold the point `(x, y)`, in the order
/// that they had.
pub open spec fn homes_off(homes: Seq<Home>, x: int, y: int) -> Seq<Home>
    decreases homes.len(),
{
    if homes.len() == 0 {
        Seq::empty()
    } else {
        let rest = homes_off(homes.drop_last(), x, y);
        if holds_point(ground_of(homes.last()), x, y) {
            rest
        } else {
            rest.push(homes.last())
        }
    }
}

/// What a tick is run with.
#[derive(Clone, Copy, PartialEq, Eq, Structural, Debug)]
pub struct TickSettings {
    /// The speed of an ant, in thousandths of a unit per second.
    pub speed: i32,
    /// The number of ticks in a second.
    pub ticks_per_second: u32,
    /// The number of ticks in a spawn period.
    pub frames: u64,
    /// The strength of a new marker.
    pub initial_strength: u64,
    /// The fraction of its strength that a marker keeps per tick.
    pub decay_rate: u64,
    /// The layout of the sensors.
    pub sensors: Sensors,
    /// The widest angle by which an ant wanders off in one tick, in
    /// millionths of a radian.
    pub wandering: i32,
}

impl TickSettings {
    /// A period has at least one tick, a marker never grows, and the
    /// sensors are laid out by a valid angle.
    pub open spec fn wf(self) -> bool {
        &&& self.frames > 0
        &&& self.ticks_per_second > 0
        &&& self.decay_rate <= STRENGTH_ONE
        &&& self.sensors.wf()
    }
}

/// Everything in the arena.
pub struct World {
    pub ants: Vec<Ant>,
    pub foods: Vec<Food>,
    pub homes: Vec<Home>,
    pub walls: Vec<Rect>,
    pub map: ObstacleMap,
    pub field: TrailField,
    pub tick: u64,
}

/// The markers that the trail phases of a tick leave: those of before with
/// the new ones of this tick, all faded once. A strength for new markers
/// that is nothing, or more than one whole, adds none.
pub open spec fn trails_after(
    markers: Seq<TrailMarker>,
    ants: Seq<Ant>,
    tick: u64,
    settings: TickSettings,
) -> Seq<TrailMarker> {
    if 0 < settings.initial_strength <= STRENGTH_ONE {
        decay_all(
            with_emissions(markers, ants, tick, settings.frames, settings.initial_strength),
            settings.decay_rate,
        )
    } else {
        decay_all(markers, settings.decay_rate)
    }
}

/// All the ants with the headings that the caller has worked out: the ant
/// at each place gets the heading at that place, if there is one.
pub open spec fn ants_after_turn(ants: Seq<Ant>, headings: Seq<(i32, i32)>) -> Seq<Ant> {
    Seq::new(
        ants.len(),
        |i: int|
            if i < headings.len() {
                after_turn(ants[i], headings[i])
            } else {
                ants[i]
            },
    )
}

/// The ants after the caller's turn and the collision phase.
pub open spec fn ants_before_foraging(
    ants: Seq<Ant>,
    headings: Seq<(i32, i32)>,
    walls: Seq<Rect>,
    cells: Seq<bool>,
) -> Seq<Ant> {
    ants_after_collisions(ants_after_turn(ants, headings), walls, cells)
}

/// All the ants after the collision phase.
pub open spec fn ants_after_collisions(ants: Seq<Ant>, walls: Seq<Rect>, cells: Seq<bool>) -> Seq<
    Ant,
> {
    Seq::new(ants.len(), |i: int| after_collisions(ants[i], walls, cells))
}

/// The number of the tick that follows `tick`; counting starts over after
/// the last number.
pub open spec fn next_tick(tick: u64) -> u64 {
    if tick == u64::MAX {
        0
    } else {
        (tick + 1) as u64
    }
}

impl World {
    /// The ants have valid headings, the map covers the grid and the
    /// markers have valid strengths.
    pub open spec fn wf(&self) -> bool {
        &&& ants_valid(self.ants@)
        &&& self.map.wf()
        &&& self.field.wf()
    }

    /// An arena with nothing in it, before its first tick.
    pub fn new() -> (r: World)
        ensures
            r.wf(),
            r.ants@.len() == 0,
            r.foods@.len() == 0,
            r.homes@.len() == 0,
            r.walls@.len() == 0,
            r.field@.len() == 0,
            r.tick == 0,
            r.map.applied() is None,
            forall|k: int| 0 <= k < CELLS ==> !(#[trigger] r.map.cells()[k]),
    {
        World {
            ants: Vec::new(),
            foods: Vec::new(),
            homes: Vec::new(),
            walls: Vec::new(),
            map: ObstacleMap::new(),
            field: TrailField::new(),
            tick: 0,
        }
    }

    /// Whether a piece of food with this id lies on the ground or is
    /// carried.
    pub fn holds_food(&self, id: u64) -> (r: bool)
        ensures
            r == in_world(id, self.ants@, self.foods@),
    {
        let mut k: usize = 0;
        while k < self.foods.len()
            invariant
                k <= self.foods.len(),
                forall|j: int| 0 <= j < k ==> (#[trigger] self.foods@[j]).id != id,
            decreases self.foods.len() - k,
        {
            if self.foods[k].id == id {
                return true;
            }
            k += 1;
        }
        let mut i: usize = 0;
        while i < self.ants.len()
            invariant
                i <= self.ants.len(),
                forall|j: int| 0 <= j < self.foods@.len() ==> (#[trigger] self.foods@[j]).id != id,
                forall|j: int| 0 <= j < i ==> (#[trigger] self.ants@[j]).carried_item != Some(id),
            decreases self.ants.len() - i,
        {
            match self.ants[i].carried_item {
                Some(item) => {
                    if item == id {
                        return true;
                    }
                },
                None => {},
            }
            i += 1;
        }
        false
    }

    /// Lays a piece of food on the ground at `(x, y)`, behind the others.
    /// An id that is in the world already is refused.
    pub fn spawn_food(&mut self, id: u64, x: i32, y: i32) -> (r: bool)
        ensures
            r == !in_world(id, old(self).ants@, old(self).foods@),
            r ==> final(self).foods@ == old(self).foods@.push(Food { id, x, y }),
            !r ==> final(self).foods@ == old(self).foods@,
            final(self).ants@ == old(self).ants@,
            final(self).homes@ == old(self).homes@,
            final(self).walls@ == old(self).walls@,
            final(self).map == old(self).map,
            final(self).field == old(self).field,
            final(self).tick == old(self).tick,
            ownership_valid(old(self).ants@, old(self).foods@) ==> ownership_valid(
                final(self).ants@,
                final(self).foods@,
            ),
    {
        if self.holds_food(id) {
            return false;
        }
        self.foods.push(Food { id, x, y });
        proof {
            let before = old(self).foods@;
            let after = self.foods@;
            if ownership_valid(old(self).ants@, before) {
                assert forall|i: int, j: int| 0 <= i < j < after.len() implies (
                #[trigger] after[i]).id != (#[trigger] after[j]).id by {
                    assert(after[i] == before[i]);
                    if j < before.len() {
                        assert(after[j] == before[j]);
                    }
                }
                assert forall|i: int, k: int|
                    0 <= i < self.ants@.len() && 0 <= k < after.len() && (
                    #[trigger] self.ants@[i]).carrying() implies self.ants@[i].carried_item->0 != (
                #[trigger] after[k]).id by {
                    if k < before.len() {
                        assert(after[k] == before[k]);
                    }
                }
            }
        }
        true
    }

    /// Takes the piece of food with this id off the ground: the first one,
    /// should several have it. Returns whether there was one. A piece that
    /// an ant carries stays with the ant. Ants are never taken away; homes
    /// and obstacles, which have no id, are taken away by their place.
    pub fn despawn(&mut self, id: u64) -> (r: bool)
        ensures
            r == (exists|k: int| 0 <= k < old(self).foods@.len() && (#[trigger] old(
                self,
            ).foods@[k]).id == id),
            r ==> exists|k: int|
                0 <= k < old(self).foods@.len() && (#[trigger] old(self).foods@[k]).id == id && (
                forall|j: int| 0 <= j < k ==> (#[trigger] old(self).foods@[j]).id != id)
                    && final(self).foods@ == old(self).foods@.remove(k),
            !r ==> final(self).foods@ == old(self).foods@,
            final(self).ants@ == old(self).ants@,
            final(self).homes@ == old(self).homes@,
            final(self).walls@ == old(self).walls@,
            final(self).map == old(self).map,
            final(self).field == old(self).field,
            final(self).tick == old(self).tick,
    {
        let mut k: usize = 0;
        while k < self.foods.len()
            invariant
                k <= self.foods.len(),
                *self == *old(self),
                forall|j: int| 0 <= j < k ==> (#[trigger] self.foods@[j]).id != id,
            decreases self.foods.len() - k,
        {
            if self.foods[k].id == id {
                self.foods.remove(k);
                return true;
            }
            k += 1;
        }
        false
    }

    /// Puts a home of the usual size at `(x, y)`, behind the others.
    pub fn spawn_home(&mut self, x: i32, y: i32)
        ensures
            final(self).homes@ == old(self).homes@.push(Home::new_spec(x, y)),
            final(self).ants@ == old(self).ants@,
            final(self).foods@ == old(self).foods@,
            final(self).walls@ == old(self).walls@,
            final(self).map == old(self).map,
            final(self).field == old(self).field,
            final(self).tick == old(self).tick,
    {
        self.homes.push(Home::new(x, y));
    }

    /// Takes away every home whose square holds the point `(x, y)` off its
    /// edges. Returns how many there were.
    pub fn despawn_homes_at(&mut self, x: i32, y: i32) -> (gone: usize)
        ensures
            final(self).homes@ == homes_off(old(self).homes@, x as int, y as int),
            gone == old(self).homes@.len() - final(self).homes@.len(),
            final(self).ants@ == old(self).ants@,
            final(self).foods@ == old(self).foods@,
            final(self).walls@ == old(self).walls@,
            final(self).map == old(self).map,
            final(self).field == old(self).field,
            final(self).tick == old(self).tick,
    {
        let mut kept: Vec<Home> = Vec::new();
        let mut i: usize = 0;
        while i < self.homes.len()
            invariant
                i <= self.homes.len(),
                *self == *old(self),
                kept@ == homes_off(self.homes@.take(i as int), x as int, y as int),
                kept@.len() <= i,
            decreases self.homes.len() - i,
        {
            proof {
                assert(self.homes@.take(i + 1).drop_last() =~= self.homes@.take(i as int));
            }
            let home = self.homes[i];
            let ground = Rect { x: home.x, y: home.y, width: home.radius, height: home.radius };
            if !contains_point(&ground, x, y) {
                kept.push(home);
            }
            i += 1;
        }
        proof {
            assert(self.homes@.take(i as int) =~= self.homes@);
        }
        let gone = self.homes.len() - kept.len();
        self.homes = kept;
        gone
    }

    /// Frees the cell in this column and row. Returns whether the grid has
    /// the cell; if not, nothing changes.
    pub fn despawn_obstacle(&mut self, col: u32, row: u32) -> (r: bool)
        requires
            old(self).map.wf(),
        ensures
            final(self).map.wf(),
            r == on_grid(col as int, row as int),
            r ==> final(self).map.cells() == old(self).map.cells().update(
                index_of(col as int, row as int),
                false,
            ),
            !r ==> final(self).map.cells() == old(self).map.cells(),
            final(self).map.applied() == old(self).map.applied(),
            final(self).ants@ == old(self).ants@,
            final(self).foods@ == old(self).foods@,
            final(self).homes@ == old(self).homes@,
            final(self).walls@ == old(self).walls@,
            final(self).field == old(self).field,
            final(self).tick == old(self).tick,
    {
        self.map.set_obstacle(col, row, false)
    }

    /// Blocks the cell in this column and row. Returns whether the grid
    /// has the cell; if not, nothing changes.
    pub fn spawn_obstacle(&mut self, col: u32, row: u32) -> (r: bool)
        requires
            old(self).map.wf(),
        ensures
            final(self).map.wf(),
            r == on_grid(col as int, row as int),
            r ==> final(self).map.cells() == old(self).map.cells().update(
                index_of(col as int, row as int),
                true,
            ),
            !r ==> final(self).map.cells() == old(self).map.cells(),
            final(self).map.applied() == old(self).map.applied(),
            final(self).ants@ == old(self).ants@,
            final(self).foods@ == old(self).foods@,
            final(self).homes@ == old(self).homes@,
            final(self).walls@ == old(self).walls@,
            final(self).field == old(self).field,
            final(self).tick == old(self).tick,
    {
        self.map.set_obstacle(col, row, true)
    }

    /// Puts an ant without a load at `(x, y)`, behind the others. A heading
    /// with a component longer than one whole is refused.
    pub fn spawn_ant(&mut self, id: u64, x: i32, y: i32, dir_x: i32, dir_y: i32) -> (r: bool)
        requires
            old(self).wf(),
        ensures
            final(self).wf(),
            r == (Ant { id, x, y, dir_x, dir_y, carry_x: 0, carry_y: 0, carried_item: None }).wf(),
            r ==> final(self).ants@ == old(self).ants@.push(
                Ant { id, x, y, dir_x, dir_y, carry_x: 0, carry_y: 0, carried_item: None },
            ),
            !r ==> final(self).ants@ == old(self).ants@,
            final(self).foods@ == old(self).foods@,
            final(self).homes@ == old(self).homes@,
            final(self).walls@ == old(self).walls@,
            final(self).map == old(self).map,
            final(self).field == old(self).field,
            final(self).tick == old(self).tick,
    {
        match Ant::new(id, x, y, dir_x, dir_y) {
            Some(ant) => {
                self.ants.push(ant);
                true
            },
            None => false,
        }
    }

    /// The first half of a tick: the movement phase. Returns, for each ant,
    /// the pull of the trails and the angle to wander off by; everything
    /// but the ants' positions stays as it was.
    pub fn begin_tick(&mut self, settings: &TickSettings) -> (pulls: Vec<Steering>)
        requires
            old(self).wf(),
            settings.wf(),
        ensures
            final(self).wf(),
            final(self).ants@.len() == old(self).ants@.len(),
            pulls@.len() == old(self).ants@.len(),
            forall|i: int|
                0 <= i < old(self).ants@.len() ==> #[trigger] final(self).ants@[i]
                    == moved(old(self).ants@[i], settings.speed, settings.ticks_per_second),
            forall|i: int|
                0 <= i < old(self).ants@.len() ==> pull_is(
                    (#[trigger] pulls@[i]).pull,
                    settings.sensors.turning_of(final(self).ants@[i], old(self).field@),
                ),
            forall|i: int|
                0 <= i < old(self).ants@.len() ==> wanders_within(
                    (#[trigger] pulls@[i]).wander,
                    settings.wandering,
                ),
            final(self).foods@ == old(self).foods@,
            final(self).homes@ == old(self).homes@,
            final(self).walls@ == old(self).walls@,
            final(self).map == old(self).map,
            final(self).field@ == old(self).field@,
            final(self).tick == old(self).tick,
            ownership_valid(old(self).ants@, old(self).foods@) ==> ownership_valid(
                final(self).ants@,
                final(self).foods@,
            ),
    {
        let pulls = movement_phase(
            &mut self.ants,
            &self.field,
            &settings.sensors,
            settings.speed,
            settings.ticks_per_second,
            settings.wandering,
        );
        proof {
            if ownership_valid(old(self).ants@, old(self).foods@) {
                lemma_ownership_follows_loads(old(self).ants@, self.ants@, old(self).foods@);
            }
        }
        pulls
    }

    /// The second half of a tick. `headings` holds, for each ant in order,
    /// the heading that the caller has worked out from the pull that
    /// `begin_tick` reported; an ant for which it holds none, or none that is
    /// valid, keeps its own. Then come collision, foraging, trail spawn and
    /// trail decay, in this order, each on what the one before has left.
    /// Returns the ids of the pieces of food that were delivered.
    pub fn finish_tick(&mut self, settings: &TickSettings, headings: &Vec<(i32, i32)>) -> (delivered:
        Vec<u64>)
        requires
            old(self).wf(),
            settings.wf(),
        ensures
            final(self).wf(),
            final(self).ants@ == ants_after(
                ants_before_foraging(
                    old(self).ants@,
                    headings@,
                    old(self).walls@,
                    old(self).map.cells(),
                ),
                old(self).foods@,
                old(self).homes@,
            ),
            final(self).foods@ == foods_after(
                ants_before_foraging(
                    old(self).ants@,
                    headings@,
                    old(self).walls@,
                    old(self).map.cells(),
                ),
                old(self).foods@,
                old(self).homes@,
                old(self).ants@.len() as int,
            ),
            final(self).field@ == trails_after(
                old(self).field@,
                final(self).ants@,
                old(self).tick,
                *settings,
            ),
            final(self).tick == next_tick(old(self).tick),
            forall|i: int|
                0 <= i < old(self).ants@.len() ==> same_place(
                    #[trigger] final(self).ants@[i],
                    old(self).ants@[i],
                ),
            delivered@ == deliveries(
                ants_before_foraging(
                    old(self).ants@,
                    headings@,
                    old(self).walls@,
                    old(self).map.cells(),
                ),
                old(self).homes@,
                old(self).ants@.len() as int,
            ),
            final(self).homes@ == old(self).homes@,
            final(self).walls@ == old(self).walls@,
            final(self).map == old(self).map,
            ownership_valid(old(self).ants@, old(self).foods@) ==> ownership_valid(
                final(self).ants@,
                final(self).foods@,
            ),
    {
        turn_phase(&mut self.ants, headings);
        let ghost turned = self.ants@;
        proof {
            assert(turned =~= ants_after_turn(old(self).ants@, headings@));
        }
        collision_phase(&mut self.ants, &self.walls, &self.map);
        let ghost collided = self.ants@;
        proof {
            assert(collided =~= ants_after_collisions(
                turned,
                old(self).walls@,
                old(self).map.cells(),
            ));
            if ownership_valid(old(self).ants@, old(self).foods@) {
                lemma_ownership_follows_loads(old(self).ants@, collided, old(self).foods@);
            }
        }
        let delivered = forage_step(&mut self.ants, &mut self.foods, &self.homes);
        proof {
            assert(self.ants@ =~= ants_after(collided, old(self).foods@, old(self).homes@));
        }
        spawn_trails(
            &mut self.field,
            &self.ants,
            self.tick,
            settings.frames,
            settings.initial_strength,
        );
        self.field.decay(settings.decay_rate);
        self.tick = if self.tick == u64::MAX {
            0
        } else {
            self.tick + 1
        };
        delivered
    }
}

/// The ids among the `n` that start at `first` under which no piece of
/// food is in the world, in rising order.
pub open spec fn free_ids(ants: Seq<Ant>, foods: Seq<Food>, first: u64, n: int) -> Seq<u64>
    decreases n,
{
    if n <= 0 {
        Seq::empty()
    } else {
        let before = free_ids(ants, foods, first, n - 1);
        let id = first + n - 1;
        if id <= u64::MAX && !in_world(id as u64, ants, foods) {
            before.push(id as u64)
        } else {
            before
        }
    }
}

/// Whether a piece of food lies in the cluster round `(x, y)`.
pub open spec fn in_cluster(food: Food, x: i32, y: i32) -> bool {
    &&& x - CLUSTER_RADIUS <= food.x <= x + CLUSTER_RADIUS
    &&& y - CLUSTER_RADIUS <= food.y <= y + CLUSTER_RADIUS
}

/// The free ids among the first `n` lie among the first `n`.
pub proof fn lemma_free_ids_in_range(ants: Seq<Ant>, foods: Seq<Food>, first: u64, n: int)
    ensures
        free_ids(ants, foods, first, n).len() <= (if n <= 0 { 0 } else { n }),
        forall|j: int|
            0 <= j < free_ids(ants, foods, first, n).len() ==> first <= (#[trigger] free_ids(
                ants,
                foods,
                first,
                n,
            )[j]) < first + n && !in_world(free_ids(ants, foods, first, n)[j], ants, foods),
    decreases n,
{
    if n > 0 {
        lemma_free_ids_in_range(ants, foods, first, n - 1);
    }
}

/// A coordinate held to what can be stored.
fn stored(v: i64) -> (r: i32)
    ensures
        i32::MIN <= v <= i32::MAX ==> r == v,
        v < i32::MIN ==> r == i32::MIN,
        v > i32::MAX ==> r == i32::MAX,
{
    if v < i32::MIN as i64 {
        i32::MIN
    } else if v > i32::MAX as i64 {
        i32::MAX
    } else {
        v as i32
    }
}

impl World {
    /// Scatters a cluster of food round `(x, y)`: one piece under each of
    /// the ids from `first_id` on, as many as a cluster has, that is not in
    /// the world yet, each at a place drawn at random within the cluster's
    /// radius along both axes. Returns the number of pieces laid.
    pub fn spawn_food_cluster(&mut self, x: i32, y: i32, first_id: u64) -> (laid: usize)
        ensures
            final(self).foods@.len() == old(self).foods@.len() + laid,
            laid == free_ids(old(self).ants@, old(self).foods@, first_id, CLUSTER_SIZE as int).len(),
            forall|k: int|
                0 <= k < old(self).foods@.len() ==> #[trigger] final(self).foods@[k] == old(
                    self,
                ).foods@[k],
            forall|j: int|
                0 <= j < laid ==> (#[trigger] final(self).foods@[old(self).foods@.len() + j]).id
                    == free_ids(old(self).ants@, old(self).foods@, first_id, CLUSTER_SIZE as int)[j]
                    && in_cluster(final(self).foods@[old(self).foods@.len() + j], x, y),
            final(self).ants@ == old(self).ants@,
            final(self).homes@ == old(self).homes@,
            final(self).walls@ == old(self).walls@,
            final(self).map == old(self).map,
            final(self).field == old(self).field,
            final(self).tick == old(self).tick,
            ownership_valid(old(self).ants@, old(self).foods@) ==> ownership_valid(
                final(self).ants@,
                final(self).foods@,
            ),
    {
        let ghost ants0 = self.ants@;
        let ghost foods0 = self.foods@;
        let mut laid: usize = 0;
        let mut i: u64 = 0;
        while i < CLUSTER_SIZE
            invariant
                i <= CLUSTER_SIZE,
                ants0 == old(self).ants@,
                foods0 == old(self).foods@,
                self.ants@ == ants0,
                self.homes@ == old(self).homes@,
                self.walls@ == old(self).walls@,
                self.map == old(self).map,
                self.field == old(self).field,
                self.tick == old(self).tick,
                laid == free_ids(ants0, foods0, first_id, i as int).len(),
                laid <= i,
                self.foods@.len() == foods0.len() + laid,
                forall|k: int| 0 <= k < foods0.len() ==> #[trigger] self.foods@[k] == foods0[k],
                forall|j: int|
                    0 <= j < laid ==> (#[trigger] self.foods@[foods0.len() + j]).id == free_ids(
                        ants0,
                        foods0,
                        first_id,
                        i as int,
                    )[j] && in_cluster(self.foods@[foods0.len() + j], x, y),
                ownership_valid(ants0, foods0) ==> ownership_valid(self.ants@, self.foods@),
            decreases CLUSTER_SIZE - i,
        {
            let ghost before = self.foods@;
            let ghost free_before = free_ids(ants0, foods0, first_id, i as int);
            proof {
                lemma_free_ids_in_range(ants0, foods0, first_id, i as int);
            }
            let dx = draw_spread(CLUSTER_RADIUS);
            let dy = draw_spread(CLUSTER_RADIUS);
            if first_id <= u64::MAX - i {
                let id: u64 = first_id + i;
                let fx = stored(x as i64 + dx);
                let fy = stored(y as i64 + dy);
                proof {
                    // a piece laid in this cluster has a smaller id, so whether
                    // `id` is in the world is what it was at the start
                    if in_world(id, self.ants@, before) && !in_world(id, ants0, foods0) {
                        let k = choose|k: int| 0 <= k < before.len() && (#[trigger] before[k]).id
                            == id;
                        if k < foods0.len() {
                            assert(before[k] == foods0[k]);
                        } else {
                            assert(before[foods0.len() + (k - foods0.len())].id == free_before[k
                                - foods0.len()]);
                        }
                    }
                    if in_world(id, ants0, foods0) && !in_world(id, self.ants@, before) {
                        if exists|k: int| 0 <= k < foods0.len() && (#[trigger] foods0[k]).id == id {
                            let k = choose|k: int| 0 <= k < foods0.len() && (#[trigger] foods0[k]).id
                                == id;
                            assert(before[k] == foods0[k]);
                        }
                    }
                }
                if self.spawn_food(id, fx, fy) {
                    laid += 1;
                }
            }
            i += 1;
        }
        laid
    }
}

/// Whether two states of an ant are in the same place with the same
/// heading.
pub open spec fn same_course(a: Ant, b: Ant) -> bool {
    same_place(a, b) && a.dir_x == b.dir_x && a.dir_y == b.dir_y
}

/// An ant whose heading nothing changes walks a straight line through whole
/// ticks. `states` holds the ant at the start and after each tick; where
/// each tick leaves the ant in the place to which its movement phase has
/// brought it, as every second half of a tick does, and with the heading
/// that it had, the ant is after any number of ticks where a walk of that
/// many steps on its first heading ends.
pub proof fn lemma_straight_line_through_ticks(
    states: Seq<Ant>,
    speed: i32,
    ticks_per_second: u32,
    ticks: nat,
)
    requires
        ticks < states.len(),
        forall|k: int|
            1 <= k < states.len() ==> same_course(
                #[trigger] states[k],
                moved(states[k - 1], speed, ticks_per_second),
            ),
    ensures
        same_course(states[ticks as int], after_walk(states[0], speed, ticks_per_second, ticks)),
    decreases ticks,
{
    if ticks > 0 {
        let k = (ticks - 1) as nat;
        lemma_straight_line_through_ticks(states, speed, ticks_per_second, k);
        let at = states[k as int];
        let model = after_walk(states[0], speed, ticks_per_second, k);
        assert(same_course(
            moved(at, speed, ticks_per_second),
            moved(model, speed, ticks_per_second),
        ));
        assert(same_course(states[ticks as int], moved(states[ticks - 1], speed, ticks_per_second)));
    }
}

/// Who owns which piece of food depends on the loads of the ants alone:
/// ants that carry what they carried before own what they owned before.
pub proof fn lemma_ownership_follows_loads(before: Seq<Ant>, after: Seq<Ant>, foods: Seq<Food>)
    requires
        before.len() == after.len(),
        forall|i: int|
            0 <= i < before.len() ==> (#[trigger] after[i]).carried_item == before[i].carried_item,
        ownership_valid(before, foods),
    ensures
        ownership_valid(after, foods),
{
    assert forall|i: int, j: int|
        0 <= i < j < after.len() && (#[trigger] after[i]).carrying() && (
        #[trigger] after[j]).carrying() implies after[i].carried_item != after[j].carried_item by {
        assert(before[i].carrying() && before[j].carrying());
    }
    assert forall|i: int, k: int|
        0 <= i < after.len() && 0 <= k < foods.len() && (#[trigger] after[i]).carrying()
        implies after[i].carried_item->0 != (#[trigger] foods[k]).id by {
        assert(before[i].carrying());
    }
}

} // verus!
