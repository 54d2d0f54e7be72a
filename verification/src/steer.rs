//! Movement and trail sensing: where an ant goes in one tick, where its
//! three sensors sit, and the vector along which the trails pull it.

use vstd::prelude::*;
use crate::colony::{Ant, DIRECTION_ONE};
use vstd::arithmetic::div_mod::{
    lemma_basic_div, lemma_div_is_ordered, lemma_fundamental_div_mod,
    lemma_hoist_over_denominator, lemma_mod_bound, lemma_mod_multiples_vanish, lemma_small_mod,
};
use crate::geometry::{div_floor, div_toward_zero, toward_zero};
use crate::trail::{lemma_blind_sensor_reads_nothing, sensed, TrailField, TrailMarker};

verus! {

/// What an ant has to its credit along one axis at a tick: the component
/// of its heading (millionths) times its speed (thousandths of a unit per
/// second), and what it carries over from the ticks before.
pub open spec fn owed(dir: int, speed: int, carry: int) -> int {
    dir * speed + carry
}

/// The number by which the credit is divided to give thousandths of a
/// unit: a million for the heading, times the number of ticks in a second.
pub open spec fn step_divisor(ticks_per_second: int) -> int {
    1_000_000 * ticks_per_second
}

/// How far an ant gets along one axis in one tick: its credit divided by
/// the divisor, rounded down.
pub open spec fn step_of(dir: int, speed: int, carry: int, ticks_per_second: int) -> int {
    owed(dir, speed, carry) / step_divisor(ticks_per_second)
}

/// What an ant carries over to the next tick: the remainder of that
/// division.
pub open spec fn carry_of(dir: int, speed: int, carry: int, ticks_per_second: int) -> int {
    owed(dir, speed, carry) % step_divisor(ticks_per_second)
}

/// Computes the step along one axis in one tick, and what is carried over.
pub fn step_along(dir: i32, speed: i32, carry: i64, ticks_per_second: u32) -> (r: (i64, i64))
    requires
        ticks_per_second > 0,
    ensures
        r.0 == step_of(dir as int, speed as int, carry as int, ticks_per_second as int),
        r.1 == carry_of(dir as int, speed as int, carry as int, ticks_per_second as int),
        0 <= r.1 < step_divisor(ticks_per_second as int),
        -20_000_000_000_000 <= r.0 <= 20_000_000_000_000,
{
    let a: i128 = dir as i128;
    let b: i128 = speed as i128;
    assert(-0x4000_0000_0000_0000 <= a * b <= 0x4000_0000_0000_0000) by (nonlinear_arith)
        requires
            -0x8000_0000 <= a <= 0x8000_0000,
            -0x8000_0000 <= b <= 0x8000_0000,
    ;
    let credit: i128 = a * b + carry as i128;
    let divisor: i128 = 1_000_000 * (ticks_per_second as i128);
    let parts = div_floor(credit, divisor);
    proof {
        let q = parts.0 as int;
        let rest = parts.1 as int;
        lemma_fundamental_div_mod(credit as int, divisor as int);
        assert(-20_000_000_000_000 <= q <= 20_000_000_000_000) by (nonlinear_arith)
            requires
                credit == divisor * q + rest,
                0 <= rest < divisor,
                divisor >= 1_000_000,
                -0x1_0000_0000_0000_0000 <= credit <= 0x1_0000_0000_0000_0000,
        ;
    }
    (parts.0 as i64, parts.1 as i64)
}

/// Whether a coordinate can be stored.
pub open spec fn storable(v: int) -> bool {
    i32::MIN <= v <= i32::MAX
}

/// Where an ant would stand after one tick of straight movement.
pub open spec fn aim(ant: Ant, speed: i32, ticks_per_second: u32) -> (int, int) {
    (
        ant.x + step_of(
            ant.dir_x as int,
            speed as int,
            ant.carry_x as int,
            ticks_per_second as int,
        ),
        ant.y + step_of(
            ant.dir_y as int,
            speed as int,
            ant.carry_y as int,
            ticks_per_second as int,
        ),
    )
}

/// An ant after one tick of straight movement: one step along its heading,
/// with what is left of its credit carried over; or as it was, if the step
/// would lead it beyond the coordinates that can be stored.
pub open spec fn moved(ant: Ant, speed: i32, ticks_per_second: u32) -> Ant {
    let to = aim(ant, speed, ticks_per_second);
    if storable(to.0) && storable(to.1) {
        Ant {
            id: ant.id,
            x: to.0 as i32,
            y: to.1 as i32,
            dir_x: ant.dir_x,
            dir_y: ant.dir_y,
            carry_x: carry_of(
                ant.dir_x as int,
                speed as int,
                ant.carry_x as int,
                ticks_per_second as int,
            ) as i64,
            carry_y: carry_of(
                ant.dir_y as int,
                speed as int,
                ant.carry_y as int,
                ticks_per_second as int,
            ) as i64,
            carried_item: ant.carried_item,
        }
    } else {
        ant
    }
}

/// The movement phase for one ant: its position goes forward along its
/// heading. Where that would lead beyond the coordinates that can be stored,
/// the ant stays as it is and `false` is returned.
pub fn advance(ant: &mut Ant, speed: i32, ticks_per_second: u32) -> (r: bool)
    requires
        ticks_per_second > 0,
    ensures
        r == (storable(aim(*old(ant), speed, ticks_per_second).0) && storable(
            aim(*old(ant), speed, ticks_per_second).1,
        )),
        *final(ant) == moved(*old(ant), speed, ticks_per_second),
{
    let along_x = step_along(ant.dir_x, speed, ant.carry_x, ticks_per_second);
    let along_y = step_along(ant.dir_y, speed, ant.carry_y, ticks_per_second);
    let nx: i64 = ant.x as i64 + along_x.0;
    let ny: i64 = ant.y as i64 + along_y.0;
    if nx < i32::MIN as i64 || nx > i32::MAX as i64 || ny < i32::MIN as i64 || ny > i32::MAX as i64 {
        return false;
    }
    ant.x = nx as i32;
    ant.y = ny as i32;
    ant.carry_x = along_x.1;
    ant.carry_y = along_y.1;
    true
}

/// An ant after `ticks` ticks of movement in which nothing turns it.
pub open spec fn after_walk(ant: Ant, speed: i32, ticks_per_second: u32, ticks: nat) -> Ant
    decreases ticks,
{
    if ticks == 0 {
        ant
    } else {
        moved(
            after_walk(ant, speed, ticks_per_second, (ticks - 1) as nat),
            speed,
            ticks_per_second,
        )
    }
}

/// The credit of an ant along one axis after `ticks` ticks on one heading.
pub open spec fn credit_after(dir: int, speed: int, carry: int, ticks: int) -> int {
    carry + ticks * (dir * speed)
}

/// The whole steps in the credit after some ticks lie between none and
/// those in the credit after more ticks.
pub proof fn lemma_on_the_way(dir: int, speed: int, carry: int, divisor: int, k: int, n: int)
    requires
        0 <= k <= n,
        0 <= carry < divisor,
    ensures
        credit_after(dir, speed, carry, 0) / divisor == 0,
        credit_after(dir, speed, carry, 0) % divisor == carry,
        dir * speed >= 0 ==> 0 <= credit_after(dir, speed, carry, k) / divisor <= credit_after(
            dir,
            speed,
            carry,
            n,
        ) / divisor,
        dir * speed <= 0 ==> credit_after(dir, speed, carry, n) / divisor <= credit_after(
            dir,
            speed,
            carry,
            k,
        ) / divisor <= 0,
{
    let m = dir * speed;
    assert(0 * m == 0) by (nonlinear_arith);
    lemma_small_mod(carry as nat, divisor as nat);
    lemma_basic_div(carry, divisor);
    assert((m >= 0 ==> 0 <= k * m <= n * m) && (m <= 0 ==> n * m <= k * m <= 0))
        by (nonlinear_arith)
        requires
            0 <= k <= n,
    ;
    if m >= 0 {
        lemma_div_is_ordered(carry, carry + k * m, divisor);
        lemma_div_is_ordered(carry + k * m, carry + n * m, divisor);
    } else {
        lemma_div_is_ordered(carry + k * m, carry, divisor);
        lemma_div_is_ordered(carry + n * m, carry + k * m, divisor);
    }
}

/// Taking the whole steps out of a credit tick by tick comes to the same
/// as taking them out once at the end.
pub proof fn lemma_one_rounding(before: int, gain: int, divisor: int)
    requires
        divisor > 0,
    ensures
        before / divisor + (gain + before % divisor) / divisor == (before + gain) / divisor,
        (gain + before % divisor) % divisor == (before + gain) % divisor,
{
    let q = before / divisor;
    let rest = before % divisor;
    lemma_fundamental_div_mod(before, divisor);
    lemma_hoist_over_denominator(gain + rest, q, divisor as nat);
    lemma_mod_multiples_vanish(q, gain + rest, divisor);
    assert(q * divisor == divisor * q) by (nonlinear_arith);
}

/// An ant that nothing turns walks a straight line, and the way that it
/// has made is rounded once, however many ticks the walk takes: along each
/// axis it stands where it started plus the whole thousandths in
/// `ticks * heading * speed / (1_000_000 * ticks_per_second)`, given that it
/// started with a carry below the divisor and that the end of the walk is a
/// place that can be stored.
pub proof fn lemma_straight_walk(ant: Ant, speed: i32, ticks_per_second: u32, ticks: nat)
    requires
        ticks_per_second > 0,
        0 <= ant.carry_x < step_divisor(ticks_per_second as int),
        0 <= ant.carry_y < step_divisor(ticks_per_second as int),
        storable(
            ant.x + credit_after(ant.dir_x as int, speed as int, ant.carry_x as int, ticks as int)
                / step_divisor(ticks_per_second as int),
        ),
        storable(
            ant.y + credit_after(ant.dir_y as int, speed as int, ant.carry_y as int, ticks as int)
                / step_divisor(ticks_per_second as int),
        ),
    ensures
        after_walk(ant, speed, ticks_per_second, ticks).x == ant.x + credit_after(
            ant.dir_x as int,
            speed as int,
            ant.carry_x as int,
            ticks as int,
        ) / step_divisor(ticks_per_second as int),
        after_walk(ant, speed, ticks_per_second, ticks).y == ant.y + credit_after(
            ant.dir_y as int,
            speed as int,
            ant.carry_y as int,
            ticks as int,
        ) / step_divisor(ticks_per_second as int),
        after_walk(ant, speed, ticks_per_second, ticks).carry_x == credit_after(
            ant.dir_x as int,
            speed as int,
            ant.carry_x as int,
            ticks as int,
        ) % step_divisor(ticks_per_second as int),
        after_walk(ant, speed, ticks_per_second, ticks).carry_y == credit_after(
            ant.dir_y as int,
            speed as int,
            ant.carry_y as int,
            ticks as int,
        ) % step_divisor(ticks_per_second as int),
        after_walk(ant, speed, ticks_per_second, ticks).dir_x == ant.dir_x,
        after_walk(ant, speed, ticks_per_second, ticks).dir_y == ant.dir_y,
        after_walk(ant, speed, ticks_per_second, ticks).id == ant.id,
        after_walk(ant, speed, ticks_per_second, ticks).carried_item == ant.carried_item,
    decreases ticks,
{
    let d = step_divisor(ticks_per_second as int);
    let mx = ant.dir_x as int * speed as int;
    let my = ant.dir_y as int * speed as int;
    let cx = ant.carry_x as int;
    let cy = ant.carry_y as int;
    lemma_on_the_way(ant.dir_x as int, speed as int, cx, d, 0, ticks as int);
    lemma_on_the_way(ant.dir_y as int, speed as int, cy, d, 0, ticks as int);
    if ticks > 0 {
        let k = (ticks - 1) as nat;
        lemma_on_the_way(ant.dir_x as int, speed as int, cx, d, k as int, ticks as int);
        lemma_on_the_way(ant.dir_y as int, speed as int, cy, d, k as int, ticks as int);
        lemma_straight_walk(ant, speed, ticks_per_second, k);
        let at = after_walk(ant, speed, ticks_per_second, k);
        let bx = credit_after(ant.dir_x as int, speed as int, cx, k as int);
        let by = credit_after(ant.dir_y as int, speed as int, cy, k as int);
        lemma_one_rounding(bx, mx, d);
        lemma_one_rounding(by, my, d);
        assert(bx + mx == credit_after(ant.dir_x as int, speed as int, cx, ticks as int))
            by (nonlinear_arith)
            requires
                bx == cx + k * mx,
                credit_after(ant.dir_x as int, speed as int, cx, ticks as int) == cx + (k + 1)
                    * mx,
        ;
        assert(by + my == credit_after(ant.dir_y as int, speed as int, cy, ticks as int))
            by (nonlinear_arith)
            requires
                by == cy + k * my,
                credit_after(ant.dir_y as int, speed as int, cy, ticks as int) == cy + (k + 1)
                    * my,
        ;
        lemma_mod_bound(bx + mx, d);
        lemma_mod_bound(by + my, d);
        assert(owed(at.dir_x as int, speed as int, at.carry_x as int) == mx + bx % d);
        assert(owed(at.dir_y as int, speed as int, at.carry_y as int) == my + by % d);
    }
}

/// The way that a fresh ant has made on a straight walk falls short of
/// `ticks * heading * speed / (1_000_000 * ticks_per_second)` by less than
/// one thousandth of a unit along each axis, however long the walk: the
/// error of rounding does not grow with the number of ticks.
pub proof fn lemma_walk_error_stays_small(ant: Ant, speed: i32, ticks_per_second: u32, ticks: nat)
    requires
        ticks_per_second > 0,
        ant.carry_x == 0,
        ant.carry_y == 0,
        storable(ant.x + ticks * (ant.dir_x * speed) / (1_000_000 * ticks_per_second)),
        storable(ant.y + ticks * (ant.dir_y * speed) / (1_000_000 * ticks_per_second)),
    ensures
        0 <= ticks * (ant.dir_x * speed) - 1_000_000 * ticks_per_second * (after_walk(
            ant,
            speed,
            ticks_per_second,
            ticks,
        ).x - ant.x) < 1_000_000 * ticks_per_second,
        0 <= ticks * (ant.dir_y * speed) - 1_000_000 * ticks_per_second * (after_walk(
            ant,
            speed,
            ticks_per_second,
            ticks,
        ).y - ant.y) < 1_000_000 * ticks_per_second,
        after_walk(ant, speed, ticks_per_second, ticks).dir_x == ant.dir_x,
        after_walk(ant, speed, ticks_per_second, ticks).dir_y == ant.dir_y,
{
    let d = step_divisor(ticks_per_second as int);
    lemma_straight_walk(ant, speed, ticks_per_second, ticks);
    let tx = credit_after(ant.dir_x as int, speed as int, 0, ticks as int);
    let ty = credit_after(ant.dir_y as int, speed as int, 0, ticks as int);
    lemma_fundamental_div_mod(tx, d);
    lemma_fundamental_div_mod(ty, d);
    lemma_mod_bound(tx, d);
    lemma_mod_bound(ty, d);
}

/// The vector `(vx, vy)` turned by the angle whose cosine and sine, in
/// millionths, are `cos` and `sin`; each component rounded toward zero.
pub open spec fn rotated(vx: int, vy: int, cos: int, sin: int) -> (int, int) {
    (
        toward_zero(vx * cos - vy * sin, DIRECTION_ONE as int),
        toward_zero(vx * sin + vy * cos, DIRECTION_ONE as int),
    )
}

/// A turn by a cosine and sine of at most one whole lengthens no vector
/// beyond the sum of the bounds of its components.
pub proof fn lemma_rotated_bound(vx: int, vy: int, cos: int, sin: int, bx: int, by: int)
    requires
        -bx <= vx <= bx,
        -by <= vy <= by,
        -DIRECTION_ONE <= cos <= DIRECTION_ONE,
        -DIRECTION_ONE <= sin <= DIRECTION_ONE,
    ensures
        -(bx + by) <= rotated(vx, vy, cos, sin).0 <= bx + by,
        -(bx + by) <= rotated(vx, vy, cos, sin).1 <= bx + by,
        -(bx + by) * 1_000_000 <= vx * cos - vy * sin <= (bx + by) * 1_000_000,
        -(bx + by) * 1_000_000 <= vx * sin + vy * cos <= (bx + by) * 1_000_000,
{
    lemma_product_bound(vx, cos, bx);
    lemma_product_bound(vx, sin, bx);
    lemma_product_bound(vy, cos, by);
    lemma_product_bound(vy, sin, by);
}

/// The product of a bounded number with a fraction of at most one whole.
pub proof fn lemma_product_bound(v: int, f: int, b: int)
    requires
        -b <= v <= b,
        -1_000_000 <= f <= 1_000_000,
    ensures
        -b * 1_000_000 <= v * f <= b * 1_000_000,
{
    assert(-b * 1_000_000 <= v * f <= b * 1_000_000) by (nonlinear_arith)
        requires
            -b <= v <= b,
            -1_000_000 <= f <= 1_000_000,
    ;
}

/// The largest component that `rotate` takes.
pub const ROTATE_MAX: i64 = 0x1_0000_0000_0000;

/// Turns a vector by the angle with the given cosine and sine.
pub fn rotate(vx: i64, vy: i64, cos: i32, sin: i32) -> (r: (i64, i64))
    requires
        -ROTATE_MAX <= vx <= ROTATE_MAX,
        -ROTATE_MAX <= vy <= ROTATE_MAX,
        -DIRECTION_ONE <= cos <= DIRECTION_ONE,
        -DIRECTION_ONE <= sin <= DIRECTION_ONE,
    ensures
        (r.0 as int, r.1 as int) == rotated(vx as int, vy as int, cos as int, sin as int),
{
    proof {
        lemma_rotated_bound(
            vx as int,
            vy as int,
            cos as int,
            sin as int,
            ROTATE_MAX as int,
            ROTATE_MAX as int,
        );
        lemma_product_bound(vx as int, cos as int, ROTATE_MAX as int);
        lemma_product_bound(vx as int, sin as int, ROTATE_MAX as int);
        lemma_product_bound(vy as int, cos as int, ROTATE_MAX as int);
        lemma_product_bound(vy as int, sin as int, ROTATE_MAX as int);
    }
    let x: i128 = (vx as i128) * (cos as i128) - (vy as i128) * (sin as i128);
    let y: i128 = (vx as i128) * (sin as i128) + (vy as i128) * (cos as i128);
    let rx: i128 = div_toward_zero(x, DIRECTION_ONE as i128);
    let ry: i128 = div_toward_zero(y, DIRECTION_ONE as i128);
    (rx as i64, ry as i64)
}

/// How an ant's three sensors are laid out: one straight ahead at
/// `distance`, one turned to the left and one to the right by the angle
/// whose cosine and sine, in millionths, are `cos` and `sin`. Each sensor
/// reads the markers closer to it than `radius`.
#[derive(Clone, Copy, PartialEq, Eq, Structural, Debug)]
pub struct Sensors {
    pub distance: i32,
    pub cos: i32,
    pub sin: i32,
    pub radius: i32,
}

/// One of the three sensors.
#[derive(Clone, Copy, PartialEq, Eq, Structural, Debug)]
pub enum Side {
    Left,
    Centre,
    Right,
}

impl Sensors {
    /// Neither the cosine nor the sine is more than one whole.
    pub open spec fn wf(self) -> bool {
        &&& -DIRECTION_ONE <= self.cos <= DIRECTION_ONE
        &&& -DIRECTION_ONE <= self.sin <= DIRECTION_ONE
    }

    /// Where a sensor sits in the ant's own frame, whose x axis points
    /// forward.
    pub open spec fn offset(self, side: Side) -> (int, int) {
        match side {
            Side::Left => rotated(self.distance as int, 0, self.cos as int, self.sin as int),
            Side::Centre => (self.distance as int, 0),
            Side::Right => rotated(self.distance as int, 0, self.cos as int, -self.sin),
        }
    }

    /// Where a sensor of the ant sits in the world: its offset turned by
    /// the ant's heading and laid on at the ant's position.
    pub open spec fn point(self, ant: Ant, side: Side) -> (int, int) {
        let local = self.offset(side);
        let turned = rotated(local.0, local.1, ant.dir_x as int, ant.dir_y as int);
        (ant.x + turned.0, ant.y + turned.1)
    }

    /// What a sensor of the ant reads off the markers.
    pub open spec fn reading(self, ant: Ant, markers: Seq<TrailMarker>, side: Side) -> int {
        let at = self.point(ant, side);
        sensed(markers, ant.carrying(), at.0, at.1, self.radius as int)
    }

    /// The pull of three readings: each sensor's offset weighted by what it
    /// reads, summed.
    pub open spec fn pull(self, left: int, centre: int, right: int) -> (int, int) {
        let l = self.offset(Side::Left);
        let c = self.offset(Side::Centre);
        let r = self.offset(Side::Right);
        (l.0 * left + c.0 * centre + r.0 * right, l.1 * left + c.1 * centre + r.1 * right)
    }

    /// The pull, or nothing where it has no length and so no direction.
    pub open spec fn turning(self, left: int, centre: int, right: int) -> Option<(int, int)> {
        let t = self.pull(left, centre, right);
        if t.0 == 0 && t.1 == 0 {
            None
        } else {
            Some(t)
        }
    }

    /// A layout of sensors. A cosine or sine of more than one whole is
    /// refused.
    pub fn new(distance: i32, cos: i32, sin: i32, radius: i32) -> (r: Option<Sensors>)
        ensures
            r == (if (Sensors { distance, cos, sin, radius }).wf() {
                Some(Sensors { distance, cos, sin, radius })
            } else {
                None
            }),
    {
        if -DIRECTION_ONE <= cos && cos <= DIRECTION_ONE && -DIRECTION_ONE <= sin && sin
            <= DIRECTION_ONE {
            Some(Sensors { distance, cos, sin, radius })
        } else {
            None
        }
    }

    /// Computes a sensor's place in the ant's own frame.
    pub fn local_offset(&self, side: Side) -> (r: (i64, i64))
        requires
            self.wf(),
        ensures
            (r.0 as int, r.1 as int) == self.offset(side),
            -0x8000_0000 <= r.0 <= 0x8000_0000,
            -0x8000_0000 <= r.1 <= 0x8000_0000,
    {
        proof {
            lemma_rotated_bound(
                self.distance as int,
                0,
                self.cos as int,
                self.sin as int,
                0x8000_0000,
                0,
            );
            lemma_rotated_bound(
                self.distance as int,
                0,
                self.cos as int,
                -self.sin,
                0x8000_0000,
                0,
            );
        }
        match side {
            Side::Left => rotate(self.distance as i64, 0, self.cos, self.sin),
            Side::Centre => (self.distance as i64, 0),
            Side::Right => rotate(self.distance as i64, 0, self.cos, -self.sin),
        }
    }

    /// Computes a sensor's place in the world.
    pub fn world_point(&self, ant: &Ant, side: Side) -> (r: (i64, i64))
        requires
            self.wf(),
            ant.wf(),
        ensures
            (r.0 as int, r.1 as int) == self.point(*ant, side),
    {
        let local = self.local_offset(side);
        proof {
            lemma_rotated_bound(
                local.0 as int,
                local.1 as int,
                ant.dir_x as int,
                ant.dir_y as int,
                0x8000_0000,
                0x8000_0000,
            );
        }
        let turned = rotate(local.0, local.1, ant.dir_x, ant.dir_y);
        (ant.x as i64 + turned.0, ant.y as i64 + turned.1)
    }

    /// Combines three readings into the vector along which the trails pull.
    /// Where the pull has no length, there is none: the ant then does not
    /// turn for the trails' sake, and nothing is ever divided by that
    /// length.
    pub fn turning_vector(&self, left: u128, centre: u128, right: u128) -> (r: Option<(i128, i128)>)
        requires
            self.wf(),
            left <= MAGNITUDE_MAX,
            centre <= MAGNITUDE_MAX,
            right <= MAGNITUDE_MAX,
        ensures
            r is Some <==> self.turning(left as int, centre as int, right as int) is Some,
            r matches Some(v) ==> (v.0 as int, v.1 as int) == self.turning(
                left as int,
                centre as int,
                right as int,
            )->0,
    {
        let l = self.local_offset(Side::Left);
        let c = self.local_offset(Side::Centre);
        let r = self.local_offset(Side::Right);
        proof {
            lemma_weight_bound(l.0 as int, left as int);
            lemma_weight_bound(l.1 as int, left as int);
            lemma_weight_bound(c.0 as int, centre as int);
            lemma_weight_bound(c.1 as int, centre as int);
            lemma_weight_bound(r.0 as int, right as int);
            lemma_weight_bound(r.1 as int, right as int);
        }
        let tx: i128 = (l.0 as i128) * (left as i128) + (c.0 as i128) * (centre as i128) + (
        r.0 as i128) * (right as i128);
        let ty: i128 = (l.1 as i128) * (left as i128) + (c.1 as i128) * (centre as i128) + (
        r.1 as i128) * (right as i128);
        if tx == 0 && ty == 0 {
            None
        } else {
            Some((tx, ty))
        }
    }

    /// The sensing part of steering for one ant: reads the three sensors off
    /// the field and combines the readings.
    pub fn steer(&self, ant: &Ant, field: &TrailField) -> (r: Option<(i128, i128)>)
        requires
            self.wf(),
            ant.wf(),
            field.wf(),
        ensures
            r is Some <==> self.turning_of(*ant, field@) is Some,
            r matches Some(v) ==> (v.0 as int, v.1 as int) == self.turning_of(*ant, field@)->0,
    {
        let carrying = ant.carrying_food();
        let count = field.len();
        proof {
            assert(count * 1_000_000_000 <= MAGNITUDE_MAX) by (nonlinear_arith)
                requires
                    count <= 0xffff_ffff_ffff_ffff,
                    MAGNITUDE_MAX == 0xffff_ffff_ffff_ffff * 1_000_000_000,
            ;
        }
        let lp = self.world_point(ant, Side::Left);
        let cp = self.world_point(ant, Side::Centre);
        let rp = self.world_point(ant, Side::Right);
        let left = field.sense(carrying, lp.0, lp.1, self.radius);
        let centre = field.sense(carrying, cp.0, cp.1, self.radius);
        let right = field.sense(carrying, rp.0, rp.1, self.radius);
        self.turning_vector(left, centre, right)
    }

    /// The vector along which the markers pull the ant, or nothing.
    pub open spec fn turning_of(self, ant: Ant, markers: Seq<TrailMarker>) -> Option<(int, int)> {
        self.turning(
            self.reading(ant, markers, Side::Left),
            self.reading(ant, markers, Side::Centre),
            self.reading(ant, markers, Side::Right),
        )
    }
}

/// What the movement phase hands the caller for one ant: the pull of the
/// trails, if there is one, and the angle by which the ant wanders off in
/// this tick, in millionths of a radian.
#[derive(Clone, Copy, PartialEq, Eq, Debug)]
pub struct Steering {
    pub pull: Option<(i128, i128)>,
    pub wander: i64,
}

/// Calls `rand::random::<u32>()`, which draws from the generator of the
/// current thread. The number is a matter of chance: nothing is claimed of
/// it.
#[verifier::external_body]
fn random_word() -> (r: u32) {
    rand::random::<u32>()
}

/// A random 32-bit number spread over the range from `-widest` to
/// `widest`: the upper 24 bits of the number, read as a fraction between
/// nought and one, are stretched to the range from minus one to one and
/// scale `widest`; the result is rounded toward zero. This is how the angle
/// by which an ant wanders off is drawn.
pub open spec fn spread_of(widest: int, draw: int) -> int {
    toward_zero(widest * (2 * (draw / 256) - 0x100_0000), 0x100_0000)
}

/// Spreads a random number over the range from `-widest` to `widest`.
pub fn spread(wandering: i32, draw: u32) -> (r: i64)
    ensures
        r == spread_of(wandering as int, draw as int),
        wandering >= 0 ==> -wandering <= r <= wandering,
        wandering <= 0 ==> wandering <= r <= -wandering,
{
    let w: i128 = wandering as i128;
    let f: i128 = 2 * ((draw / 256) as i128) - 0x100_0000;
    proof {
        if w >= 0 {
            assert(-0x100_0000 * w <= w * f <= 0x100_0000 * w) by (nonlinear_arith)
                requires
                    0 <= w,
                    -0x100_0000 <= f <= 0x100_0000,
            ;
        } else {
            assert(0x100_0000 * w <= w * f <= -0x100_0000 * w) by (nonlinear_arith)
                requires
                    w <= 0,
                    -0x100_0000 <= f <= 0x100_0000,
            ;
        }
    }
    let q: i128 = div_toward_zero(w * f, 0x100_0000);
    q as i64
}

/// Draws the angle by which an ant wanders off in one tick: some angle
/// between `wandering` to the one side and `wandering` to the other.
pub fn draw_wander(wandering: i32) -> (r: i64)
    ensures
        exists|draw: u32| r == spread_of(wandering as int, draw as int),
        wandering >= 0 ==> -wandering <= r <= wandering,
        wandering <= 0 ==> wandering <= r <= -wandering,
{
    draw_spread(wandering)
}

/// Draws a number between `-widest` and `widest`.
pub fn draw_spread(widest: i32) -> (r: i64)
    ensures
        exists|draw: u32| r == spread_of(widest as int, draw as int),
        widest >= 0 ==> -widest <= r <= widest,
        widest <= 0 ==> widest <= r <= -widest,
{
    let draw = random_word();
    spread(widest, draw)
}

/// An ant that does not wander keeps to its line, whatever is drawn.
pub proof fn lemma_no_wandering(draw: int)
    ensures
        spread_of(0, draw) == 0,
{
    assert(0 * (2 * (draw / 256) - 0x100_0000) == 0) by (nonlinear_arith);
}

/// The largest reading that `turning_vector` takes: one whole from each of
/// as many markers as a field can hold.
pub const MAGNITUDE_MAX: u128 = 18_446_744_073_709_551_615_000_000_000;

/// An offset weighted by a reading stays well inside 128 bits.
pub proof fn lemma_weight_bound(offset: int, magnitude: int)
    requires
        -0x8000_0000 <= offset <= 0x8000_0000,
        0 <= magnitude <= MAGNITUDE_MAX,
    ensures
        -0x8000_0000 * MAGNITUDE_MAX <= offset * magnitude <= 0x8000_0000 * MAGNITUDE_MAX,
{
    assert(-0x8000_0000 * MAGNITUDE_MAX <= offset * magnitude <= 0x8000_0000 * MAGNITUDE_MAX)
        by (nonlinear_arith)
        requires
            -0x8000_0000 <= offset <= 0x8000_0000,
            0 <= magnitude <= MAGNITUDE_MAX,
    ;
}

/// Sensors without a radius read nothing, so nothing pulls the ant,
/// whatever lies on the ground.
pub proof fn lemma_blind_sensors_never_turn(s: Sensors, ant: Ant, markers: Seq<TrailMarker>)
    requires
        s.radius <= 0,
    ensures
        s.reading(ant, markers, Side::Left) == 0,
        s.reading(ant, markers, Side::Centre) == 0,
        s.reading(ant, markers, Side::Right) == 0,
        s.turning_of(ant, markers) is None,
{
    let lp = s.point(ant, Side::Left);
    let cp = s.point(ant, Side::Centre);
    let rp = s.point(ant, Side::Right);
    lemma_blind_sensor_reads_nothing(markers, ant.carrying(), lp.0, lp.1, s.radius as int);
    lemma_blind_sensor_reads_nothing(markers, ant.carrying(), cp.0, cp.1, s.radius as int);
    lemma_blind_sensor_reads_nothing(markers, ant.carrying(), rp.0, rp.1, s.radius as int);
    let l = s.offset(Side::Left);
    let c = s.offset(Side::Centre);
    let r = s.offset(Side::Right);
    assert(l.0 * 0 == 0 && l.1 * 0 == 0 && c.0 * 0 == 0 && c.1 * 0 == 0 && r.0 * 0 == 0 && r.1 * 0
        == 0) by (nonlinear_arith);
}

} // verus!
