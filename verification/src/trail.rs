//! The trail field: typed markers that fade by a fixed rate each tick and
//! leave the field once they are too faint.

use vstd::prelude::*;
use crate::geometry::{in_reach, within};

verus! {

/// The strength that stands for one whole.
pub const STRENGTH_ONE: u64 = 1_000_000_000;

/// A marker fainter than this, a hundredth of a whole, leaves the field.
pub const STRENGTH_FLOOR: u64 = 10_000_000;

/// What the ant that left a marker was doing.
#[derive(Clone, Copy, PartialEq, Eq, Structural, Debug)]
pub enum TrailType {
    /// Left by an ant in search of food: such a trail leads back home.
    Gathering,
    /// Left by an ant that carries food: such a trail leads to food.
    GotFood,
}

/// One deposit on the ground.
#[derive(Clone, Copy, PartialEq, Eq, Structural, Debug)]
pub struct TrailMarker {
    pub x: i32,
    pub y: i32,
    pub trail_type: TrailType,
    pub strength: u64,
}

/// The kind of marker that an ant leaves behind.
pub open spec fn emitted_type(carrying: bool) -> TrailType {
    if carrying {
        TrailType::GotFood
    } else {
        TrailType::Gathering
    }
}

/// Whether an ant follows markers of the given kind: one without food
/// follows the trails of ants that found some, one with food follows the
/// trails of ants that came from home.
pub open spec fn attracts(carrying: bool, trail_type: TrailType) -> bool {
    match trail_type {
        TrailType::Gathering => carrying,
        TrailType::GotFood => !carrying,
    }
}

/// The strength after one tick: the product with `rate`, a fraction of
/// `STRENGTH_ONE`, rounded down.
pub open spec fn decayed(strength: u64, rate: u64) -> int {
    (strength as int * rate as int) / (STRENGTH_ONE as int)
}

/// One tick of decay never strengthens a marker.
pub proof fn lemma_decay_non_increasing(strength: u64, rate: u64)
    requires
        rate <= STRENGTH_ONE,
    ensures
        0 <= decayed(strength, rate) <= strength,
{
    let s = strength as int;
    let r = rate as int;
    assert(0 <= s * r <= s * 1_000_000_000) by (nonlinear_arith)
        requires
            0 <= s,
            0 <= r <= 1_000_000_000,
    ;
    assert((s * 1_000_000_000) / 1_000_000_000 == s) by (nonlinear_arith);
    assert(0 <= (s * r) / 1_000_000_000 <= (s * 1_000_000_000) / 1_000_000_000)
        by (nonlinear_arith)
        requires
            0 <= s * r <= s * 1_000_000_000,
    ;
}

/// With a rate below one whole, a marker that has any strength at all
/// loses some of it.
pub proof fn lemma_decay_strict(strength: u64, rate: u64)
    requires
        rate < STRENGTH_ONE,
        strength > 0,
    ensures
        decayed(strength, rate) < strength,
{
    let s = strength as int;
    let r = rate as int;
    assert(s * r < s * 1_000_000_000) by (nonlinear_arith)
        requires
            0 < s,
            0 <= r < 1_000_000_000,
    ;
    assert((s * r) / 1_000_000_000 < s) by (nonlinear_arith)
        requires
            s * r < s * 1_000_000_000,
            0 < s,
    ;
}

/// The kind of marker that an ant leaves behind.
pub fn trail_type_for(carrying: bool) -> (r: TrailType)
    ensures
        r == emitted_type(carrying),
{
    if carrying {
        TrailType::GotFood
    } else {
        TrailType::Gathering
    }
}

/// Whether an ant follows markers of the given kind.
pub fn is_attractive(carrying: bool, trail_type: TrailType) -> (r: bool)
    ensures
        r == attracts(carrying, trail_type),
{
    match trail_type {
        TrailType::Gathering => carrying,
        TrailType::GotFood => !carrying,
    }
}

/// Fades a strength by one tick.
pub fn decay_strength(strength: u64, rate: u64) -> (r: u64)
    requires
        rate <= STRENGTH_ONE,
    ensures
        r == decayed(strength, rate),
        r <= strength,
{
    proof {
        lemma_decay_non_increasing(strength, rate);
        assert(strength as int * rate as int <= 0xffff_ffff_ffff_ffff * 1_000_000_000)
            by (nonlinear_arith)
            requires
                0 <= strength as int <= 0xffff_ffff_ffff_ffff,
                0 <= rate as int <= 1_000_000_000,
        ;
    }
    let wide: u128 = (strength as u128) * (rate as u128);
    (wide / (STRENGTH_ONE as u128)) as u64
}

/// A marker after one tick: the same place and kind, its strength faded.
pub open spec fn decay_marker(m: TrailMarker, rate: u64) -> TrailMarker {
    TrailMarker { x: m.x, y: m.y, trail_type: m.trail_type, strength: decayed(m.strength, rate) as u64 }
}

/// The field after one tick: every marker faded, those fallen below the
/// floor taken out, the others in the order they had.
pub open spec fn decay_all(markers: Seq<TrailMarker>, rate: u64) -> Seq<TrailMarker>
    decreases markers.len(),
{
    if markers.len() == 0 {
        Seq::empty()
    } else {
        let rest = decay_all(markers.drop_last(), rate);
        let m = decay_marker(markers.last(), rate);
        if m.strength >= STRENGTH_FLOOR {
            rest.push(m)
        } else {
            rest
        }
    }
}

/// What one marker adds to a sensor at `(sx, sy)`: its strength if the ant
/// follows its kind and it lies within the sensor's radius, else nothing.
pub open spec fn contribution(
    m: TrailMarker,
    carrying: bool,
    sx: int,
    sy: int,
    radius: int,
) -> int {
    if attracts(carrying, m.trail_type) && in_reach(m.x as int, m.y as int, sx, sy, radius) {
        m.strength as int
    } else {
        0
    }
}

/// The magnitude that a sensor at `(sx, sy)` reads off the field.
pub open spec fn sensed(
    markers: Seq<TrailMarker>,
    carrying: bool,
    sx: int,
    sy: int,
    radius: int,
) -> int
    decreases markers.len(),
{
    if markers.len() == 0 {
        0
    } else {
        sensed(markers.drop_last(), carrying, sx, sy, radius) + contribution(
            markers.last(),
            carrying,
            sx,
            sy,
            radius,
        )
    }
}

/// Whether every marker of the sequence has a strength above nothing and of
/// at most one whole.
pub open spec fn strengths_valid(markers: Seq<TrailMarker>) -> bool {
    forall|i: int| 0 <= i < markers.len() ==> 0 < (#[trigger] markers[i]).strength <= STRENGTH_ONE
}

/// A sensor without a radius reads nothing, whatever lies on the ground.
pub proof fn lemma_blind_sensor_reads_nothing(
    markers: Seq<TrailMarker>,
    carrying: bool,
    sx: int,
    sy: int,
    radius: int,
)
    requires
        radius <= 0,
    ensures
        sensed(markers, carrying, sx, sy, radius) == 0,
    decreases markers.len(),
{
    if markers.len() > 0 {
        lemma_blind_sensor_reads_nothing(markers.drop_last(), carrying, sx, sy, radius);
    }
}

/// Every survivor of a tick is a marker of the field before it, faded, and
/// is at least as strong as the floor; and every marker of the field that is
/// that strong after fading survives.
pub proof fn lemma_decay_keeps_exactly_the_strong(markers: Seq<TrailMarker>, rate: u64)
    ensures
        forall|m: TrailMarker|
            decay_all(markers, rate).contains(m) <==> (m.strength >= STRENGTH_FLOOR && exists|j: int|
                0 <= j < markers.len() && m == decay_marker(#[trigger] markers[j], rate)),
        decay_all(markers, rate).len() <= markers.len(),
    decreases markers.len(),
{
    let out = decay_all(markers, rate);
    if markers.len() == 0 {
        assert forall|m: TrailMarker| out.contains(m) implies false by {}
    } else {
        let front = markers.drop_last();
        let rest = decay_all(front, rate);
        let last = decay_marker(markers.last(), rate);
        lemma_decay_keeps_exactly_the_strong(front, rate);
        assert forall|m: TrailMarker|
            out.contains(m) <==> (m.strength >= STRENGTH_FLOOR && exists|j: int|
                0 <= j < markers.len() && m == decay_marker(#[trigger] markers[j], rate)) by {
            if out.contains(m) {
                let k = choose|k: int| 0 <= k < out.len() && out[k] == m;
                if last.strength >= STRENGTH_FLOOR && k == rest.len() {
                    assert(m == decay_marker(markers[markers.len() - 1], rate));
                } else {
                    assert(rest[k] == m);
                    assert(rest.contains(m));
                    let j = choose|j: int|
                        0 <= j < front.len() && m == decay_marker(#[trigger] front[j], rate);
                    assert(m == decay_marker(markers[j], rate));
                }
            }
            if m.strength >= STRENGTH_FLOOR && exists|j: int|
                0 <= j < markers.len() && m == decay_marker(#[trigger] markers[j], rate) {
                let j = choose|j: int|
                    0 <= j < markers.len() && m == decay_marker(#[trigger] markers[j], rate);
                if j == markers.len() - 1 {
                    assert(out == rest.push(last));
                    assert(out[rest.len() as int] == m);
                } else {
                    assert(m == decay_marker(front[j], rate));
                    assert(rest.contains(m));
                    let k = choose|k: int| 0 <= k < rest.len() && rest[k] == m;
                    assert(out[k] == m);
                }
            }
        }
    }
}

/// A tick of decay leaves only strengths that are valid.
pub proof fn lemma_decay_keeps_valid(markers: Seq<TrailMarker>, rate: u64)
    requires
        rate <= STRENGTH_ONE,
        strengths_valid(markers),
    ensures
        strengths_valid(decay_all(markers, rate)),
    decreases markers.len(),
{
    if markers.len() > 0 {
        lemma_decay_keeps_valid(markers.drop_last(), rate);
        assert(markers.last() == markers[markers.len() - 1]);
        lemma_decay_non_increasing(markers.last().strength, rate);
    }
}

/// The markers on the ground, oldest first.
pub struct TrailField {
    markers: Vec<TrailMarker>,
}

impl TrailField {
    /// The markers as a sequence, oldest first.
    pub closed spec fn view(&self) -> Seq<TrailMarker> {
        self.markers@
    }

    /// Every marker has a strength above nothing and of at most one whole.
    pub open spec fn wf(&self) -> bool {
        strengths_valid(self@)
    }

    /// A field without markers.
    pub fn new() -> (r: TrailField)
        ensures
            r@ == Seq::<TrailMarker>::empty(),
            r.wf(),
    {
        TrailField { markers: Vec::new() }
    }

    /// The number of markers.
    pub fn len(&self) -> (r: usize)
        ensures
            r == self@.len(),
    {
        self.markers.len()
    }

    /// The marker at `index`, counted from the oldest.
    pub fn marker(&self, index: usize) -> (r: Option<TrailMarker>)
        ensures
            r == (if index < self@.len() {
                Some(self@[index as int])
            } else {
                None
            }),
    {
        if index < self.markers.len() {
            Some(self.markers[index])
        } else {
            None
        }
    }

    /// Puts a marker of the given kind and strength at `(x, y)`, behind all
    /// others. A strength of nothing, or of more than one whole, is refused
    /// and leaves the field as it was.
    pub fn spawn(&mut self, x: i32, y: i32, trail_type: TrailType, initial_strength: u64) -> (r: bool)
        requires
            old(self).wf(),
        ensures
            r == (0 < initial_strength <= STRENGTH_ONE),
            r ==> final(self)@ == old(self)@.push(
                TrailMarker { x, y, trail_type, strength: initial_strength },
            ),
            !r ==> final(self)@ == old(self)@,
            final(self).wf(),
    {
        if initial_strength == 0 || initial_strength > STRENGTH_ONE {
            return false;
        }
        self.markers.push(TrailMarker { x, y, trail_type, strength: initial_strength });
        true
    }

    /// One tick of decay: every strength is multiplied by `rate`, a fraction
    /// of `STRENGTH_ONE`, and the markers that fall below the floor leave.
    pub fn decay(&mut self, rate: u64)
        requires
            old(self).wf(),
            rate <= STRENGTH_ONE,
        ensures
            final(self)@ == decay_all(old(self)@, rate),
            final(self).wf(),
            forall|i: int|
                0 <= i < final(self)@.len() ==> (#[trigger] final(self)@[i]).strength
                    >= STRENGTH_FLOOR,
    {
        let mut kept: Vec<TrailMarker> = Vec::new();
        let mut i: usize = 0;
        while i < self.markers.len()
            invariant
                i <= self.markers.len(),
                rate <= STRENGTH_ONE,
                self.markers@ == old(self).markers@,
                kept@ == decay_all(self.markers@.take(i as int), rate),
                forall|k: int| 0 <= k < kept@.len() ==> (#[trigger] kept@[k]).strength >= STRENGTH_FLOOR,
            decreases self.markers.len() - i,
        {
            proof {
                assert(self.markers@.take(i + 1).drop_last() =~= self.markers@.take(i as int));
            }
            let m = self.markers[i];
            let strength = decay_strength(m.strength, rate);
            if strength >= STRENGTH_FLOOR {
                kept.push(TrailMarker { x: m.x, y: m.y, trail_type: m.trail_type, strength });
            }
            i += 1;
        }
        proof {
            assert(self.markers@.take(i as int) =~= self.markers@);
            lemma_decay_keeps_valid(self.markers@, rate);
        }
        self.markers = kept;
    }

    /// The magnitude that a sensor of the given radius at `(sx, sy)` reads:
    /// the sum of the strengths of the markers that the ant follows and that
    /// lie strictly closer to the sensor than the radius.
    pub fn sense(&self, carrying: bool, sx: i64, sy: i64, radius: i32) -> (r: u128)
        requires
            self.wf(),
        ensures
            r == sensed(self@, carrying, sx as int, sy as int, radius as int),
            r <= self@.len() * STRENGTH_ONE,
    {
        let mut sum: u128 = 0;
        let mut i: usize = 0;
        while i < self.markers.len()
            invariant
                i <= self.markers.len(),
                strengths_valid(self.markers@),
                sum == sensed(
                    self.markers@.take(i as int),
                    carrying,
                    sx as int,
                    sy as int,
                    radius as int,
                ),
                sum <= i * STRENGTH_ONE,
            decreases self.markers.len() - i,
        {
            proof {
                assert(self.markers@.take(i + 1).drop_last() =~= self.markers@.take(i as int));
                assert(i * STRENGTH_ONE + STRENGTH_ONE == (i + 1) * STRENGTH_ONE)
                    by (nonlinear_arith);
                assert((i + 1) * STRENGTH_ONE <= 0xffff_ffff_ffff_ffff * 1_000_000_000)
                    by (nonlinear_arith)
                    requires
                        i + 1 <= 0xffff_ffff_ffff_ffff,
                ;
            }
            let m = self.markers[i];
            if is_attractive(carrying, m.trail_type) && within(
                m.x as i64,
                m.y as i64,
                sx,
                sy,
                radius as i64,
            ) {
                sum = sum + m.strength as u128;
            }
            i += 1;
        }
        proof {
            assert(self.markers@.take(i as int) =~= self.markers@);
        }
        sum
    }
}

} // verus!
