//! Axis-aligned boxes: overlap, the face that was hit, and the damped
//! response of a moving body.

use vstd::prelude::*;
use crate::colony::DIRECTION_ONE;
use crate::geometry::{
    dist_sq, div_toward_zero, integer_sqrt, is_sqrt_floor, lemma_square_bound, sqrt_floor,
    squared_distance, toward_zero,
};

verus! {

/// The side of the obstacle's neighbourhood on which the moving body sits
/// when it overlaps the obstacle.
#[derive(Clone, Copy, PartialEq, Eq, Structural, Debug)]
pub enum Face {
    Left,
    Right,
    Top,
    Bottom,
}

/// A box given by its centre and its extent along each axis.
#[derive(Clone, Copy, PartialEq, Eq, Structural, Debug)]
pub struct Rect {
    pub x: i32,
    pub y: i32,
    pub width: i32,
    pub height: i32,
}

impl Rect {
    /// Twice the least x coordinate of the box.
    pub open spec fn min_x2(self) -> int {
        2 * self.x - self.width
    }

    /// Twice the greatest x coordinate of the box.
    pub open spec fn max_x2(self) -> int {
        2 * self.x + self.width
    }

    /// Twice the least y coordinate of the box.
    pub open spec fn min_y2(self) -> int {
        2 * self.y - self.height
    }

    /// Twice the greatest y coordinate of the box.
    pub open spec fn max_y2(self) -> int {
        2 * self.y + self.height
    }
}

/// Whether the point `(x, y)` lies inside the box, off its edges.
pub open spec fn holds_point(b: Rect, x: int, y: int) -> bool {
    &&& b.min_x2() < 2 * x < b.max_x2()
    &&& b.min_y2() < 2 * y < b.max_y2()
}

/// Tests whether a point lies inside a box, off its edges.
pub fn contains_point(b: &Rect, x: i32, y: i32) -> (r: bool)
    ensures
        r == holds_point(*b, x as int, y as int),
{
    let px: i64 = 2 * (x as i64);
    let py: i64 = 2 * (y as i64);
    let min_x: i64 = 2 * (b.x as i64) - b.width as i64;
    let max_x: i64 = 2 * (b.x as i64) + b.width as i64;
    let min_y: i64 = 2 * (b.y as i64) - b.height as i64;
    let max_y: i64 = 2 * (b.y as i64) + b.height as i64;
    min_x < px && px < max_x && min_y < py && py < max_y
}

/// Whether the interiors of the two boxes meet.
pub open spec fn overlaps(a: Rect, b: Rect) -> bool {
    &&& a.min_x2() < b.max_x2()
    &&& a.max_x2() > b.min_x2()
    &&& a.min_y2() < b.max_y2()
    &&& a.max_y2() > b.min_y2()
}

/// `a` sticks out of `b` on the low side of an axis only: it starts before
/// `b` does and ends inside it. The arguments are the doubled bounds.
pub open spec fn enters_low(a_min: int, a_max: int, b_min: int, b_max: int) -> bool {
    a_min < b_min && a_max > b_min && a_max < b_max
}

/// `a` sticks out of `b` on the high side of an axis only.
pub open spec fn enters_high(a_min: int, a_max: int, b_min: int, b_max: int) -> bool {
    a_min > b_min && a_min < b_max && a_max > b_max
}

/// The face hit along the x axis, with twice the depth of penetration.
pub open spec fn x_hit(a: Rect, b: Rect) -> Option<(Face, int)> {
    if enters_low(a.min_x2(), a.max_x2(), b.min_x2(), b.max_x2()) {
        Some((Face::Left, a.max_x2() - b.min_x2()))
    } else if enters_high(a.min_x2(), a.max_x2(), b.min_x2(), b.max_x2()) {
        Some((Face::Right, b.max_x2() - a.min_x2()))
    } else {
        None
    }
}

/// The face hit along the y axis, with twice the depth of penetration.
pub open spec fn y_hit(a: Rect, b: Rect) -> Option<(Face, int)> {
    if enters_low(a.min_y2(), a.max_y2(), b.min_y2(), b.max_y2()) {
        Some((Face::Bottom, a.max_y2() - b.min_y2()))
    } else if enters_high(a.min_y2(), a.max_y2(), b.min_y2(), b.max_y2()) {
        Some((Face::Top, b.max_y2() - a.min_y2()))
    } else {
        None
    }
}

/// The face of least penetration where `a` overlaps `b`; when both axes are
/// hit equally deep the x axis is reported. A box that overlaps without
/// sticking out on exactly one side of an axis hits no face.
pub open spec fn collision_face(a: Rect, b: Rect) -> Option<Face> {
    if !overlaps(a, b) {
        None
    } else {
        match (x_hit(a, b), y_hit(a, b)) {
            (Some((xf, xd)), Some((yf, yd))) => if yd < xd {
                Some(yf)
            } else {
                Some(xf)
            },
            (Some((xf, _)), None) => Some(xf),
            (None, Some((yf, _))) => Some(yf),
            (None, None) => None,
        }
    }
}

/// Narrow phase: the face on which box `a` hits box `b`, if they overlap.
pub fn collide(a: &Rect, b: &Rect) -> (r: Option<Face>)
    ensures
        r == collision_face(*a, *b),
{
    let a_min_x: i64 = 2 * (a.x as i64) - a.width as i64;
    let a_max_x: i64 = 2 * (a.x as i64) + a.width as i64;
    let a_min_y: i64 = 2 * (a.y as i64) - a.height as i64;
    let a_max_y: i64 = 2 * (a.y as i64) + a.height as i64;
    let b_min_x: i64 = 2 * (b.x as i64) - b.width as i64;
    let b_max_x: i64 = 2 * (b.x as i64) + b.width as i64;
    let b_min_y: i64 = 2 * (b.y as i64) - b.height as i64;
    let b_max_y: i64 = 2 * (b.y as i64) + b.height as i64;
    if !(a_min_x < b_max_x && a_max_x > b_min_x && a_min_y < b_max_y && a_max_y > b_min_y) {
        return None;
    }
    let mut x_face: Option<Face> = None;
    let mut x_depth: i64 = 0;
    if a_min_x < b_min_x && a_max_x > b_min_x && a_max_x < b_max_x {
        x_face = Some(Face::Left);
        x_depth = a_max_x - b_min_x;
    } else if a_min_x > b_min_x && a_min_x < b_max_x && a_max_x > b_max_x {
        x_face = Some(Face::Right);
        x_depth = b_max_x - a_min_x;
    }
    let mut y_face: Option<Face> = None;
    let mut y_depth: i64 = 0;
    if a_min_y < b_min_y && a_max_y > b_min_y && a_max_y < b_max_y {
        y_face = Some(Face::Bottom);
        y_depth = a_max_y - b_min_y;
    } else if a_min_y > b_min_y && a_min_y < b_max_y && a_max_y > b_max_y {
        y_face = Some(Face::Top);
        y_depth = b_max_y - a_min_y;
    }
    match (x_face, y_face) {
        (Some(xf), Some(yf)) => if y_depth < x_depth {
            Some(yf)
        } else {
            Some(xf)
        },
        (Some(xf), None) => Some(xf),
        (None, Some(yf)) => Some(yf),
        (None, None) => None,
    }
}

/// The larger of a box's two extents.
pub open spec fn longest_side(b: Rect) -> int {
    if b.width >= b.height {
        b.width as int
    } else {
        b.height as int
    }
}

/// Whether a body centred at `(ax, ay)` is near enough to `b` to be tested
/// exactly: its centre is no further from the centre of `b` than the
/// longest side of `b` is long.
pub open spec fn near(ax: int, ay: int, b: Rect) -> bool {
    dist_sq(ax, ay, b.x as int, b.y as int) <= longest_side(b) * longest_side(b)
}

/// Broad phase: a cheap test on the centres that comes before `collide`. A
/// pair is dropped where the squared distance of the centres exceeds the
/// square of the obstacle's longest side.
pub fn broad_phase(ax: i32, ay: i32, b: &Rect) -> (r: bool)
    ensures
        r == near(ax as int, ay as int, *b),
{
    let c: i128 = if b.width >= b.height {
        b.width as i128
    } else {
        b.height as i128
    };
    proof {
        lemma_square_bound(c as int);
    }
    squared_distance(ax, ay, b.x, b.y) <= c * c
}

/// A tenth of `d`, rounded toward zero, with the sign turned.
pub open spec fn damped(d: int) -> int {
    if d >= 0 {
        -(d / 10)
    } else {
        (-d) / 10
    }
}

/// The direction of a body after it has hit `face` while moving along
/// `(dx, dy)`. Only a component that points into the face is changed: it is
/// turned round and cut to a tenth.
pub open spec fn deflected(face: Face, dx: int, dy: int) -> (int, int) {
    match face {
        Face::Left => if dx > 0 { (damped(dx), dy) } else { (dx, dy) },
        Face::Right => if dx < 0 { (damped(dx), dy) } else { (dx, dy) },
        Face::Top => if dy < 0 { (dx, damped(dy)) } else { (dx, dy) },
        Face::Bottom => if dy > 0 { (dx, damped(dy)) } else { (dx, dy) },
    }
}

/// Turns a component round and cuts it to a tenth.
pub fn damp(d: i32) -> (r: i32)
    ensures
        r == damped(d as int),
{
    if d >= 0 {
        -(d / 10)
    } else {
        let wide: i64 = -(d as i64);
        (wide / 10) as i32
    }
}

/// Applies the response to one hit.
pub fn deflect(face: Face, dx: i32, dy: i32) -> (r: (i32, i32))
    ensures
        (r.0 as int, r.1 as int) == deflected(face, dx as int, dy as int),
{
    match face {
        Face::Left => if dx > 0 { (damp(dx), dy) } else { (dx, dy) },
        Face::Right => if dx < 0 { (damp(dx), dy) } else { (dx, dy) },
        Face::Top => if dy < 0 { (dx, damp(dy)) } else { (dx, dy) },
        Face::Bottom => if dy > 0 { (dx, damp(dy)) } else { (dx, dy) },
    }
}

/// The length of a vector, rounded down.
pub open spec fn length_of(dx: int, dy: int) -> int {
    sqrt_floor(dx * dx + dy * dy)
}

/// The heading that points along `(dx, dy)`: the vector brought to the
/// length of one whole, each component rounded toward zero. The vector
/// without length has no heading and stays as it is.
pub open spec fn normalised(dx: int, dy: int) -> (int, int) {
    let len = length_of(dx, dy);
    if len <= 0 {
        (0, 0)
    } else {
        (toward_zero(dx * DIRECTION_ONE, len), toward_zero(dy * DIRECTION_ONE, len))
    }
}

/// Neither component is longer than one whole.
pub open spec fn valid_heading(dx: int, dy: int) -> bool {
    -DIRECTION_ONE <= dx <= DIRECTION_ONE && -DIRECTION_ONE <= dy <= DIRECTION_ONE
}

/// A component of a vector is no longer than the vector.
pub proof fn lemma_component_within_length(d: int, n: int, len: int)
    requires
        is_sqrt_floor(n, len),
        d * d <= n,
    ensures
        -len <= d <= len,
{
    assert(-len <= d <= len) by (nonlinear_arith)
        requires
            0 <= len,
            d * d <= n,
            n < (len + 1) * (len + 1),
    ;
}

/// A component divided by the length of its vector is at most one whole.
pub proof fn lemma_unit_component(d: int, len: int)
    requires
        len > 0,
        -len <= d <= len,
    ensures
        -DIRECTION_ONE <= toward_zero(d * DIRECTION_ONE, len) <= DIRECTION_ONE,
{
    let a = d * 1_000_000;
    if d >= 0 {
        assert(0 <= a / len <= 1_000_000) by (nonlinear_arith)
            requires
                len > 0,
                0 <= d <= len,
                a == d * 1_000_000,
        ;
    } else {
        assert(0 <= (-a) / len <= 1_000_000) by (nonlinear_arith)
            requires
                len > 0,
                0 <= -d <= len,
                a == d * 1_000_000,
        ;
    }
}

/// Brings a vector to the length of one whole.
pub fn normalise(dx: i32, dy: i32) -> (r: (i32, i32))
    ensures
        (r.0 as int, r.1 as int) == normalised(dx as int, dy as int),
        valid_heading(r.0 as int, r.1 as int),
{
    let x: i128 = dx as i128;
    let y: i128 = dy as i128;
    proof {
        lemma_square_bound(x as int);
        lemma_square_bound(y as int);
        assert(x * x <= 0x4000_0000_0000_0000 && y * y <= 0x4000_0000_0000_0000)
            by (nonlinear_arith)
            requires
                -0x8000_0000 <= x <= 0x8000_0000,
                -0x8000_0000 <= y <= 0x8000_0000,
        ;
    }
    let n: u64 = (x * x + y * y) as u64;
    let len: u64 = integer_sqrt(n);
    if len == 0 {
        return (0, 0);
    }
    proof {
        lemma_component_within_length(x as int, n as int, len as int);
        lemma_component_within_length(y as int, n as int, len as int);
        lemma_unit_component(x as int, len as int);
        lemma_unit_component(y as int, len as int);
    }
    let qx: i128 = div_toward_zero(x * (DIRECTION_ONE as i128), len as i128);
    let qy: i128 = div_toward_zero(y * (DIRECTION_ONE as i128), len as i128);
    (qx as i32, qy as i32)
}

/// Whether a body that moves along `(dx, dy)` moves into the face.
pub open spec fn opposes(face: Face, dx: int, dy: int) -> bool {
    match face {
        Face::Left => dx > 0,
        Face::Right => dx < 0,
        Face::Top => dy < 0,
        Face::Bottom => dy > 0,
    }
}

/// The heading of a body after it has hit `face` while heading along
/// `(dx, dy)`: where it moved into the face, the heading that points along
/// the deflected direction; else the heading that it had.
pub open spec fn heading_after_hit(face: Face, dx: int, dy: int) -> (int, int) {
    if opposes(face, dx, dy) {
        normalised(deflected(face, dx, dy).0, deflected(face, dx, dy).1)
    } else {
        (dx, dy)
    }
}

/// Answers one hit: deflects the direction and takes the heading from it.
pub fn answer_hit(face: Face, dx: i32, dy: i32) -> (r: (i32, i32))
    ensures
        (r.0 as int, r.1 as int) == heading_after_hit(face, dx as int, dy as int),
        valid_heading(dx as int, dy as int) ==> valid_heading(r.0 as int, r.1 as int),
{
    let moves_in = match face {
        Face::Left => dx > 0,
        Face::Right => dx < 0,
        Face::Top => dy < 0,
        Face::Bottom => dy > 0,
    };
    if moves_in {
        let d = deflect(face, dx, dy);
        normalise(d.0, d.1)
    } else {
        (dx, dy)
    }
}

/// The direction after the body `body`, moving along `dir`, has been tested
/// against the single box `b`: unchanged unless `b` passes the broad phase
/// and is hit on some face.
pub open spec fn respond(body: Rect, dir: (int, int), b: Rect) -> (int, int) {
    if near(body.x as int, body.y as int, b) {
        match collision_face(body, b) {
            Some(face) => heading_after_hit(face, dir.0, dir.1),
            None => dir,
        }
    } else {
        dir
    }
}

/// The direction after the boxes of `obstacles` have been handled one after
/// the other, each response starting from the direction that the one before
/// it left.
pub open spec fn resolved(body: Rect, dir: (int, int), obstacles: Seq<Rect>) -> (int, int)
    decreases obstacles.len(),
{
    if obstacles.len() == 0 {
        dir
    } else {
        respond(body, resolved(body, dir, obstacles.drop_last()), obstacles.last())
    }
}

/// The heading after the hits of `faces` have been answered in order.
pub open spec fn after_hits(dir: (int, int), faces: Seq<Face>) -> (int, int)
    decreases faces.len(),
{
    if faces.len() == 0 {
        dir
    } else {
        let before = after_hits(dir, faces.drop_last());
        heading_after_hit(faces.last(), before.0, before.1)
    }
}

/// Runs broad and narrow phase against every box in turn and answers each
/// hit as it is found. The body does not move meanwhile; only its direction
/// changes.
pub fn resolve_collisions(body: &Rect, dx: i32, dy: i32, obstacles: &Vec<Rect>) -> (r: (i32, i32))
    ensures
        (r.0 as int, r.1 as int) == resolved(*body, (dx as int, dy as int), obstacles@),
        valid_heading(dx as int, dy as int) ==> valid_heading(r.0 as int, r.1 as int),
{
    let mut cx: i32 = dx;
    let mut cy: i32 = dy;
    let mut i: usize = 0;
    while i < obstacles.len()
        invariant
            i <= obstacles.len(),
            (cx as int, cy as int) == resolved(
                *body,
                (dx as int, dy as int),
                obstacles@.take(i as int),
            ),
            valid_heading(dx as int, dy as int) ==> valid_heading(cx as int, cy as int),
        decreases obstacles.len() - i,
    {
        proof {
            assert(obstacles@.take(i + 1).drop_last() =~= obstacles@.take(i as int));
        }
        if broad_phase(body.x, body.y, &obstacles[i]) {
            match collide(body, &obstacles[i]) {
                Some(face) => {
                    let next = answer_hit(face, cx, cy);
                    cx = next.0;
                    cy = next.1;
                },
                None => {},
            }
        }
        i += 1;
    }
    proof {
        assert(obstacles@.take(i as int) =~= obstacles@);
    }
    (cx, cy)
}

/// Answers a list of hits in order.
pub fn answer_hits(dx: i32, dy: i32, faces: &Vec<Face>) -> (r: (i32, i32))
    ensures
        (r.0 as int, r.1 as int) == after_hits((dx as int, dy as int), faces@),
        valid_heading(dx as int, dy as int) ==> valid_heading(r.0 as int, r.1 as int),
{
    let mut cx: i32 = dx;
    let mut cy: i32 = dy;
    let mut i: usize = 0;
    while i < faces.len()
        invariant
            i <= faces.len(),
            (cx as int, cy as int) == after_hits((dx as int, dy as int), faces@.take(i as int)),
            valid_heading(dx as int, dy as int) ==> valid_heading(cx as int, cy as int),
        decreases faces.len() - i,
    {
        proof {
            assert(faces@.take(i + 1).drop_last() =~= faces@.take(i as int));
        }
        let next = answer_hit(faces[i], cx, cy);
        cx = next.0;
        cy = next.1;
        i += 1;
    }
    proof {
        assert(faces@.take(i as int) =~= faces@);
    }
    (cx, cy)
}

/// The response with the narrow phase alone.
pub open spec fn respond_exactly(body: Rect, dir: (int, int), b: Rect) -> (int, int) {
    match collision_face(body, b) {
        Some(face) => heading_after_hit(face, dir.0, dir.1),
        None => dir,
    }
}

/// The broad phase changes nothing for a body that is small beside the
/// obstacle: where the sums of the two extents along each axis, squared and
/// added, do not exceed four times the square of the obstacle's longest
/// side, the response is that of the narrow phase alone.
pub proof fn lemma_broad_phase_changes_nothing(body: Rect, dir: (int, int), b: Rect)
    requires
        body.width >= 0,
        body.height >= 0,
        b.width >= 0,
        b.height >= 0,
        (body.width + b.width) * (body.width + b.width) + (body.height + b.height) * (body.height
            + b.height) <= 4 * (longest_side(b) * longest_side(b)),
    ensures
        overlaps(body, b) ==> near(body.x as int, body.y as int, b),
        respond(body, dir, b) == respond_exactly(body, dir, b),
{
    if overlaps(body, b) {
        let dx = body.x - b.x;
        let dy = body.y - b.y;
        let sx = body.width + b.width;
        let sy = body.height + b.height;
        assert(-sx < 2 * dx < sx);
        assert(-sy < 2 * dy < sy);
        assert(4 * (dx * dx) < sx * sx) by (nonlinear_arith)
            requires
                -sx < 2 * dx < sx,
        ;
        assert(4 * (dy * dy) < sy * sy) by (nonlinear_arith)
            requires
                -sy < 2 * dy < sy,
        ;
    }
}

/// A damped component points the other way and is a tenth as long, up to
/// the rounding of a whole division.
pub proof fn lemma_damped_is_tenth(d: int)
    ensures
        d > 0 ==> damped(d) <= 0,
        d < 0 ==> damped(d) >= 0,
        -9 <= 10 * damped(d) + d <= 9,
        d % 10 == 0 ==> 10 * damped(d) == -d,
{
}

/// A body that moves into the left face of an obstacle is deflected to a
/// direction whose x component is a tenth of what it was, turned round, and
/// whose y component is what it was; its heading then points along that
/// direction.
pub proof fn lemma_left_hit_damps_x(dx: int, dy: int)
    requires
        dx > 0,
    ensures
        deflected(Face::Left, dx, dy) == (damped(dx), dy),
        damped(dx) <= 0,
        -9 <= 10 * damped(dx) + dx <= 9,
        heading_after_hit(Face::Left, dx, dy) == normalised(damped(dx), dy),
{
}

} // verus!
