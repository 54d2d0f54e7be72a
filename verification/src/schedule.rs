//! When ants leave trail markers: once per period, each ant at a tick of
//! its own within the period.

use vstd::prelude::*;
use vstd::arithmetic::div_mod::{lemma_mod_multiples_vanish, lemma_small_mod};
use rand_chacha::rand_core::{RngCore, SeedableRng};
use rand_chacha::ChaCha8Rng;
use crate::colony::Ant;
use crate::trail::{emitted_type, trail_type_for, TrailField, TrailMarker, STRENGTH_ONE};

verus! {

/// The first 64-bit output of the ChaCha generator with eight rounds after
/// it has been seeded with `seed`.
pub uninterp spec fn chacha8_first_output(seed: u64) -> u64;

/// Calls `ChaCha8Rng::seed_from_u64` and then `next_u64` on the generator
/// that it returns. Both are functions of their input alone and are kept
/// the same on every platform, so the number drawn is a function of the
/// seed; the contract names it and claims nothing else of it.
#[verifier::external_body]
fn chacha8_draw(seed: u64) -> (r: u64)
    ensures
        r == chacha8_first_output(seed),
{
    let mut rng = ChaCha8Rng::seed_from_u64(seed);
    rng.next_u64()
}

/// Why a spawn period cannot be turned into a number of ticks.
#[derive(Clone, Copy, PartialEq, Eq, Structural, Debug)]
pub enum CadenceError {
    /// The period is zero or negative.
    PeriodNotPositive,
    /// A second has no ticks.
    TickRateNotPositive,
    /// The period is shorter than one tick.
    PeriodShorterThanStep,
    /// The period has more ticks than can be counted.
    PeriodTooLong,
}

/// The ticks that fall into a period of `period_us` microseconds at
/// `ticks_per_second` ticks a second, rounded down.
pub open spec fn ticks_in(period_us: int, ticks_per_second: int) -> int {
    period_us * ticks_per_second / 1_000_000
}

/// The number of ticks in a spawn period: the period divided by the
/// duration of a tick, rounded down, where that is at least one.
pub open spec fn frames_of(period_us: i64, ticks_per_second: u32) -> Result<u64, CadenceError> {
    if period_us <= 0 {
        Err(CadenceError::PeriodNotPositive)
    } else if ticks_per_second == 0 {
        Err(CadenceError::TickRateNotPositive)
    } else if ticks_in(period_us as int, ticks_per_second as int) < 1 {
        Err(CadenceError::PeriodShorterThanStep)
    } else if ticks_in(period_us as int, ticks_per_second as int) > u64::MAX {
        Err(CadenceError::PeriodTooLong)
    } else {
        Ok(ticks_in(period_us as int, ticks_per_second as int) as u64)
    }
}

/// Turns a spawn period into a number of ticks, or says why it cannot.
pub fn spawn_period_frames(period_us: i64, ticks_per_second: u32) -> (r: Result<u64, CadenceError>)
    ensures
        r == frames_of(period_us, ticks_per_second),
        r is Ok ==> r->Ok_0 >= 1,
{
    if period_us <= 0 {
        Err(CadenceError::PeriodNotPositive)
    } else if ticks_per_second == 0 {
        Err(CadenceError::TickRateNotPositive)
    } else {
        assert(0 <= period_us as int * ticks_per_second as int <= 0x7fff_ffff_ffff_ffff
            * 0xffff_ffff) by (nonlinear_arith)
            requires
                0 <= period_us as int <= 0x7fff_ffff_ffff_ffff,
                0 <= ticks_per_second as int <= 0xffff_ffff,
        ;
        let product: u128 = (period_us as u128) * (ticks_per_second as u128);
        let frames: u128 = product / 1_000_000;
        if frames < 1 {
            Err(CadenceError::PeriodShorterThanStep)
        } else if frames > u64::MAX as u128 {
            Err(CadenceError::PeriodTooLong)
        } else {
            Ok(frames as u64)
        }
    }
}

/// The tick within each period at which the ant with the given hash emits.
pub open spec fn offset_of(hash: u64, frames: u64) -> int {
    hash as int % frames as int
}

/// Whether the ant with the given hash emits at `tick`.
pub open spec fn emits_with(hash: u64, tick: u64, frames: u64) -> bool {
    tick as int % frames as int == offset_of(hash, frames)
}

/// Whether the ant with the given id emits at `tick`.
pub open spec fn emits(ant_id: u64, tick: u64, frames: u64) -> bool {
    emits_with(chacha8_first_output(ant_id), tick, frames)
}

/// A number that depends on the ant's id alone and is the same in every
/// run.
pub fn stable_hash(ant_id: u64) -> (r: u64)
    ensures
        r == chacha8_first_output(ant_id),
{
    chacha8_draw(ant_id)
}

/// The tick within each period at which the ant with the given hash emits.
pub fn emission_offset(hash: u64, frames: u64) -> (r: u64)
    requires
        frames > 0,
    ensures
        r == offset_of(hash, frames),
        r < frames,
{
    hash % frames
}

/// Whether the ant with the given hash emits at `tick`.
pub fn emits_at(hash: u64, tick: u64, frames: u64) -> (r: bool)
    requires
        frames > 0,
    ensures
        r == emits_with(hash, tick, frames),
{
    tick % frames == emission_offset(hash, frames)
}

/// Within the period numbered `period`, the ticks from `period * frames` up
/// to the next multiple of `frames`, an ant emits at exactly one tick: the
/// one that lies its offset behind the start of the period.
pub proof fn lemma_one_emission_per_period(hash: u64, frames: u64, period: nat)
    requires
        frames > 0,
        (period + 1) * frames <= u64::MAX,
    ensures
        forall|tick: u64|
            period * frames <= tick < (period + 1) * frames ==> (#[trigger] emits_with(
                hash,
                tick,
                frames,
            ) <==> tick == period * frames + offset_of(hash, frames)),
        0 <= offset_of(hash, frames) < frames,
{
    let f = frames as int;
    let p = period as int;
    assert(p * f + f == (p + 1) * f) by (nonlinear_arith);
    assert forall|tick: u64| p * f <= tick < (p + 1) * f implies (#[trigger] emits_with(
        hash,
        tick,
        frames,
    ) <==> tick == p * f + offset_of(hash, frames)) by {
        let r = tick as int - p * f;
        lemma_mod_multiples_vanish(p, r, f);
        lemma_small_mod(r as nat, f as nat);
        assert(f * p == p * f) by (nonlinear_arith);
        assert(tick as int % f == r);
    }
}

/// The markers after the ants of `ants` have had their turn at `tick`, one
/// after the other: each ant that emits leaves a marker of its phase's kind
/// where it stands.
pub open spec fn with_emissions(
    markers: Seq<TrailMarker>,
    ants: Seq<Ant>,
    tick: u64,
    frames: u64,
    strength: u64,
) -> Seq<TrailMarker>
    decreases ants.len(),
{
    if ants.len() == 0 {
        markers
    } else {
        let before = with_emissions(markers, ants.drop_last(), tick, frames, strength);
        let ant = ants.last();
        if emits(ant.id, tick, frames) {
            before.push(
                TrailMarker {
                    x: ant.x,
                    y: ant.y,
                    trail_type: emitted_type(ant.carrying()),
                    strength,
                },
            )
        } else {
            before
        }
    }
}

/// The spawn phase of a tick. Every ant whose turn it is leaves a marker of
/// strength `initial_strength` at its position. A strength of nothing, or of
/// more than one whole, leaves no marker at all.
pub fn spawn_trails(
    field: &mut TrailField,
    ants: &Vec<Ant>,
    tick: u64,
    frames: u64,
    initial_strength: u64,
)
    requires
        old(field).wf(),
        frames > 0,
    ensures
        final(field).wf(),
        0 < initial_strength <= STRENGTH_ONE ==> final(field)@ == with_emissions(
            old(field)@,
            ants@,
            tick,
            frames,
            initial_strength,
        ),
        !(0 < initial_strength <= STRENGTH_ONE) ==> final(field)@ == old(field)@,
{
    let mut i: usize = 0;
    while i < ants.len()
        invariant
            i <= ants.len(),
            frames > 0,
            field.wf(),
            0 < initial_strength <= STRENGTH_ONE ==> field@ == with_emissions(
                old(field)@,
                ants@.take(i as int),
                tick,
                frames,
                initial_strength,
            ),
            !(0 < initial_strength <= STRENGTH_ONE) ==> field@ == old(field)@,
        decreases ants.len() - i,
    {
        proof {
            assert(ants@.take(i + 1).drop_last() =~= ants@.take(i as int));
        }
        let ant = ants[i];
        if emits_at(stable_hash(ant.id), tick, frames) {
            let kind = trail_type_for(ant.carrying_food());
            field.spawn(ant.x, ant.y, kind, initial_strength);
        }
        i += 1;
    }
    proof {
        assert(ants@.take(i as int) =~= ants@);
    }
}

} // verus!
