use ant_colony::colony::Ant;
use ant_colony::schedule::{
    emission_offset, emits_at, spawn_period_frames, spawn_trails, stable_hash, CadenceError,
};
use ant_colony::trail::{TrailField, TrailMarker, TrailType, STRENGTH_ONE};
use rand_chacha::rand_core::{RngCore, SeedableRng};
use rand_chacha::ChaCha8Rng;

#[test]
fn quarter_second_at_sixty_ticks_a_second_is_fifteen_ticks() {
    assert_eq!(spawn_period_frames(250_000, 60), Ok(15));
    assert_eq!(spawn_period_frames(249_999, 60), Ok(14));
    assert_eq!(spawn_period_frames(266_666, 60), Ok(15));
    assert_eq!(spawn_period_frames(266_667, 60), Ok(16));
    assert_eq!(spawn_period_frames(1_000_000, 1), Ok(1));
    assert_eq!(spawn_period_frames(1, 1_000_000), Ok(1));
    assert_eq!(spawn_period_frames(i64::MAX, 1), Ok(9_223_372_036_854));
    assert_eq!(spawn_period_frames(i64::MAX, 2_000_000), Ok(u64::MAX - 1));
}

#[test]
fn a_period_that_is_not_positive_is_refused() {
    assert_eq!(spawn_period_frames(0, 60), Err(CadenceError::PeriodNotPositive));
    assert_eq!(spawn_period_frames(-250_000, 60), Err(CadenceError::PeriodNotPositive));
    assert_eq!(spawn_period_frames(0, 0), Err(CadenceError::PeriodNotPositive));
}

#[test]
fn a_second_without_ticks_is_refused() {
    assert_eq!(spawn_period_frames(250_000, 0), Err(CadenceError::TickRateNotPositive));
}

#[test]
fn a_period_without_a_whole_tick_is_refused() {
    assert_eq!(spawn_period_frames(16_666, 60), Err(CadenceError::PeriodShorterThanStep));
    assert_eq!(spawn_period_frames(16_667, 60), Ok(1));
    assert_eq!(spawn_period_frames(999_999, 1), Err(CadenceError::PeriodShorterThanStep));
}

#[test]
fn a_period_of_too_many_ticks_is_refused() {
    assert_eq!(spawn_period_frames(i64::MAX, 2_000_001), Err(CadenceError::PeriodTooLong));
    assert_eq!(spawn_period_frames(i64::MAX, u32::MAX), Err(CadenceError::PeriodTooLong));
}

#[test]
fn the_hash_is_the_first_draw_of_the_seeded_generator() {
    for id in [0u64, 1, 2, 42, 1_000_003, u64::MAX] {
        let mut rng = ChaCha8Rng::seed_from_u64(id);
        assert_eq!(stable_hash(id), rng.next_u64());
    }
}

#[test]
fn the_hash_is_stable_and_not_the_id() {
    assert_eq!(stable_hash(7), stable_hash(7));
    assert_ne!(stable_hash(7), 7);
    assert_ne!(stable_hash(7), stable_hash(8));
}

#[test]
fn the_offset_is_the_hash_reduced_by_the_period() {
    assert_eq!(emission_offset(47, 15), 2);
    assert_eq!(emission_offset(15, 15), 0);
    assert_eq!(emission_offset(u64::MAX, 1), 0);
    assert_eq!(emission_offset(u64::MAX, u64::MAX), 0);
    assert_eq!(emission_offset(14, 15), 14);
}

#[test]
fn an_ant_emits_once_in_each_period() {
    let frames = 15u64;
    for id in 0u64..20 {
        let hash = stable_hash(id);
        for period in 0u64..4 {
            let mut count = 0;
            for tick in period * frames..(period + 1) * frames {
                if emits_at(hash, tick, frames) {
                    count += 1;
                    assert_eq!(tick, period * frames + emission_offset(hash, frames));
                }
            }
            assert_eq!(count, 1);
        }
    }
}

#[test]
fn with_one_tick_per_period_every_tick_emits() {
    for tick in 0u64..10 {
        assert!(emits_at(12_345, tick, 1));
    }
}

fn ant(id: u64, x: i32, y: i32, carried: Option<u64>) -> Ant {
    Ant { id, x, y, dir_x: 1_000_000, dir_y: 0, carry_x: 0, carry_y: 0, carried_item: carried }
}

#[test]
fn the_spawn_phase_marks_the_ants_whose_turn_it_is() {
    let frames = 4u64;
    let ants = vec![ant(1, 10, 11, None), ant(2, 20, 21, Some(9)), ant(3, 30, 31, None)];
    let mut total = 0;
    for tick in 0u64..4 {
        let mut field = TrailField::new();
        spawn_trails(&mut field, &ants, tick, frames, STRENGTH_ONE);
        let mut expected = Vec::new();
        for a in ants.iter() {
            if stable_hash(a.id) % frames == tick {
                expected.push(TrailMarker {
                    x: a.x,
                    y: a.y,
                    trail_type: if a.carried_item.is_some() {
                        TrailType::GotFood
                    } else {
                        TrailType::Gathering
                    },
                    strength: STRENGTH_ONE,
                });
            }
        }
        assert_eq!(field.len(), expected.len());
        for (i, m) in expected.iter().enumerate() {
            assert_eq!(field.marker(i), Some(*m));
        }
        total += field.len();
    }
    assert_eq!(total, 3);
}

#[test]
fn the_spawn_phase_adds_behind_the_markers_that_are_there() {
    let mut field = TrailField::new();
    field.spawn(5, 5, TrailType::GotFood, 1);
    let ants = vec![ant(1, 10, 11, None)];
    spawn_trails(&mut field, &ants, 0, 1, 500_000_000);
    assert_eq!(field.len(), 2);
    assert_eq!(field.marker(0).unwrap().x, 5);
    assert_eq!(
        field.marker(1),
        Some(TrailMarker { x: 10, y: 11, trail_type: TrailType::Gathering, strength: 500_000_000 })
    );
}

#[test]
fn the_spawn_phase_leaves_nothing_with_an_invalid_strength() {
    let ants = vec![ant(1, 10, 11, None)];
    let mut field = TrailField::new();
    spawn_trails(&mut field, &ants, 0, 1, 0);
    assert_eq!(field.len(), 0);
    spawn_trails(&mut field, &ants, 0, 1, STRENGTH_ONE + 1);
    assert_eq!(field.len(), 0);
}
