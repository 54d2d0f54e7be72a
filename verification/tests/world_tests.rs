use ant_colony::collision::Rect;
use ant_colony::colony::{Ant, Food, Home};
use ant_colony::schedule::stable_hash;
use ant_colony::steer::{Sensors, Steering};
use ant_colony::trail::{TrailMarker, TrailType, STRENGTH_ONE};
use ant_colony::world::{collision_phase, movement_phase, turn_phase, TickSettings, World};

fn settings(radius: i32) -> TickSettings {
    TickSettings {
        speed: 40_000,
        ticks_per_second: 60,
        frames: 15,
        initial_strength: STRENGTH_ONE,
        decay_rate: 999_000_000,
        sensors: Sensors { distance: 20_000, cos: 707_107, sin: 707_107, radius },
        wandering: 0,
    }
}

#[test]
fn a_new_world_is_empty() {
    let w = World::new();
    assert!(w.ants.is_empty() && w.foods.is_empty() && w.homes.is_empty() && w.walls.is_empty());
    assert_eq!(w.field.len(), 0);
    assert_eq!(w.tick, 0);
    assert!(!w.map.is_obstacle(0, 0));
}

#[test]
fn a_lone_ant_without_sensors_walks_a_straight_line() {
    let mut w = World::new();
    assert!(w.spawn_ant(1, 0, -50_000, 1_000_000, 0));
    // markers of both kinds on and beside the path
    for k in 0..50 {
        w.field.spawn(k * 1_000, -50_000, TrailType::GotFood, STRENGTH_ONE);
        w.field.spawn(k * 1_000, -49_000, TrailType::Gathering, STRENGTH_ONE);
        w.field.spawn(k * 1_000 + 20_000, -51_000, TrailType::GotFood, STRENGTH_ONE);
    }
    let s = settings(0);
    for tick in 1..=600 {
        let pulls = w.begin_tick(&s);
        assert_eq!(pulls, vec![Steering { pull: None, wander: 0 }]);
        let delivered = w.finish_tick(&s, &Vec::new());
        assert!(delivered.is_empty());
        // 40 units/s at 60 ticks a second
        assert_eq!((w.ants[0].x, w.ants[0].y), (tick * 40_000 / 60, -50_000));
        assert_eq!((w.ants[0].dir_x, w.ants[0].dir_y), (1_000_000, 0));
        if tick == 60 {
            assert_eq!(w.ants[0].x, 40_000);
        }
    }
    assert_eq!(w.ants[0].x, 400_000);
    assert_eq!(w.tick, 600);
}

#[test]
fn the_tick_counter_starts_over_after_the_last_number() {
    let mut w = World::new();
    w.tick = u64::MAX;
    w.finish_tick(&settings(0), &Vec::new());
    assert_eq!(w.tick, 0);
}

#[test]
fn the_movement_phase_moves_every_ant_and_reads_where_it_arrives() {
    let mut w = World::new();
    w.spawn_ant(1, 0, 0, 1_000_000, 0);
    w.spawn_ant(2, 0, 100_000, 0, -1_000_000);
    // a marker right at the middle sensor of the first ant after its step
    w.field.spawn(20_666, 0, TrailType::GotFood, 400_000_000);
    let s = settings(7_660);
    let pulls = movement_phase(&mut w.ants, &w.field, &s.sensors, s.speed, s.ticks_per_second, 0);
    assert_eq!((w.ants[0].x, w.ants[0].y), (666, 0));
    assert_eq!((w.ants[1].x, w.ants[1].y), (0, 99_333));
    assert_eq!(
        pulls,
        vec![
            Steering { pull: Some((8_000_000_000_000, 0)), wander: 0 },
            Steering { pull: None, wander: 0 },
        ]
    );
}

#[test]
fn headings_are_taken_where_they_are_valid() {
    let mut ants = vec![
        Ant::new(1, 0, 0, 1_000_000, 0).unwrap(),
        Ant::new(2, 0, 0, 1_000_000, 0).unwrap(),
        Ant::new(3, 0, 0, 1_000_000, 0).unwrap(),
    ];
    turn_phase(&mut ants, &vec![(0, -1_000_000), (1_000_001, 0)]);
    assert_eq!((ants[0].dir_x, ants[0].dir_y), (0, -1_000_000));
    assert_eq!((ants[1].dir_x, ants[1].dir_y), (1_000_000, 0));
    assert_eq!((ants[2].dir_x, ants[2].dir_y), (1_000_000, 0));
    turn_phase(&mut ants, &vec![(1, 2), (3, 4), (5, 6), (7, 8)]);
    assert_eq!((ants[2].dir_x, ants[2].dir_y), (5, 6));
}

#[test]
fn the_collision_phase_answers_walls_then_cells() {
    let mut w = World::new();
    // a wall to the right of the ant and a blocked cell above it
    w.walls.push(Rect { x: 16_000, y: 5_000, width: 10_000, height: 620_000 });
    assert!(w.spawn_obstacle(45, 31)); // centre (5_000, 15_000)
    w.spawn_ant(1, 9_000, 9_000, 800_000, 600_000);
    w.spawn_ant(2, -100_000, -100_000, 800_000, 600_000);
    collision_phase(&mut w.ants, &w.walls, &w.map);
    assert_eq!((w.ants[0].dir_x, w.ants[0].dir_y), (-800_003, -600_001));
    assert_eq!((w.ants[0].x, w.ants[0].y), (9_000, 9_000));
    assert_eq!((w.ants[1].dir_x, w.ants[1].dir_y), (800_000, 600_000));
}

#[test]
fn food_is_placed_once_under_each_id() {
    let mut w = World::new();
    assert!(w.spawn_food(7, 1, 2));
    assert!(!w.spawn_food(7, 3, 4));
    assert!(w.spawn_food(8, 3, 4));
    assert_eq!(w.foods, vec![Food { id: 7, x: 1, y: 2 }, Food { id: 8, x: 3, y: 4 }]);
    assert!(w.holds_food(7));
    assert!(!w.holds_food(9));
    w.spawn_ant(1, 0, 0, 0, 0);
    w.ants[0].carried_item = Some(9);
    assert!(w.holds_food(9));
    assert!(!w.spawn_food(9, 0, 0));
}

#[test]
fn food_is_taken_off_the_ground_by_its_id() {
    let mut w = World::new();
    w.spawn_food(7, 1, 2);
    w.spawn_food(8, 3, 4);
    w.spawn_food(9, 5, 6);
    assert!(w.despawn(8));
    assert!(!w.despawn(8));
    assert_eq!(w.foods, vec![Food { id: 7, x: 1, y: 2 }, Food { id: 9, x: 5, y: 6 }]);
    assert!(!w.despawn(100));
}

#[test]
fn homes_obstacles_and_ants_are_placed() {
    let mut w = World::new();
    w.spawn_home(0, -50_000);
    assert_eq!(w.homes, vec![Home { x: 0, y: -50_000, radius: 10_000 }]);
    assert!(w.spawn_obstacle(3, 4));
    assert!(w.map.is_obstacle(3, 4));
    assert!(!w.spawn_obstacle(90, 4));
    assert!(!w.spawn_ant(1, 0, 0, 2_000_000, 0));
    assert!(w.ants.is_empty());
}

#[test]
fn a_whole_tick_runs_its_phases_in_order() {
    let mut w = World::new();
    w.spawn_home(0, 0);
    w.spawn_food(50, 100_000, 0);
    // the first ant carries food and stands at home; the second stands on food
    w.spawn_ant(1, 0, 0, 1_000_000, 0);
    w.ants[0].carried_item = Some(40);
    w.spawn_ant(2, 100_000, 0, 0, 1_000_000);
    let mut s = settings(0);
    s.frames = 1;
    s.decay_rate = 500_000_000;
    let pulls = w.begin_tick(&s);
    assert_eq!(pulls.len(), 2);
    assert!(pulls.iter().all(|p| p.pull.is_none() && p.wander == 0));
    let delivered = w.finish_tick(&s, &Vec::new());
    assert_eq!(delivered, vec![40]);
    // foraging comes before the spawn phase: the markers show the new phases
    assert_eq!(w.ants[0].carried_item, None);
    assert_eq!(w.ants[1].carried_item, Some(50));
    assert_eq!((w.ants[0].dir_x, w.ants[0].dir_y), (-1_000_000, 0));
    assert_eq!((w.ants[1].dir_x, w.ants[1].dir_y), (0, -1_000_000));
    assert!(w.foods.is_empty());
    // decay comes after the spawn phase: new markers have faded once
    assert_eq!(w.field.len(), 2);
    assert_eq!(
        w.field.marker(0),
        Some(TrailMarker {
            x: 666,
            y: 0,
            trail_type: TrailType::Gathering,
            strength: 500_000_000
        })
    );
    assert_eq!(
        w.field.marker(1),
        Some(TrailMarker {
            x: 100_000,
            y: 666,
            trail_type: TrailType::GotFood,
            strength: 500_000_000
        })
    );
    assert_eq!(w.tick, 1);
}

#[test]
fn each_ant_marks_once_per_period_over_many_ticks() {
    let mut w = World::new();
    for id in 0..5u64 {
        w.spawn_ant(id, 0, (id as i32) * 50_000, 0, 0);
    }
    let mut s = settings(0);
    s.decay_rate = STRENGTH_ONE;
    for tick in 0..45u64 {
        let before = w.field.len();
        w.begin_tick(&s);
        w.finish_tick(&s, &Vec::new());
        let due = (0..5u64).filter(|id| stable_hash(*id) % 15 == tick % 15).count();
        assert_eq!(w.field.len(), before + due);
    }
    assert_eq!(w.field.len(), 15);
}

#[test]
fn the_second_half_of_a_tick_starts_with_the_turn() {
    let mut w = World::new();
    // a blocked cell right of the ant: only an ant that heads right answers it
    assert!(w.spawn_obstacle(46, 30)); // centre (15_000, 5_000)
    w.spawn_ant(1, 9_000, 5_000, -1_000_000, 0);
    let s = settings(0);
    w.finish_tick(&s, &Vec::new());
    assert_eq!((w.ants[0].dir_x, w.ants[0].dir_y), (-1_000_000, 0));
    w.finish_tick(&s, &vec![(1_000_000, 0)]);
    assert_eq!((w.ants[0].dir_x, w.ants[0].dir_y), (-1_000_000, 0));
    w.finish_tick(&s, &vec![(600_000, 800_000)]);
    // deflected to (-60_000, 800_000), then brought to length
    assert_eq!((w.ants[0].dir_x, w.ants[0].dir_y), (-74_790, 997_200));
    // a heading that is none is not taken
    w.finish_tick(&s, &vec![(2_000_000, 0)]);
    assert_eq!((w.ants[0].dir_x, w.ants[0].dir_y), (-74_790, 997_200));
}

#[test]
fn every_ant_gets_an_angle_to_wander_off_by() {
    let mut w = World::new();
    for id in 0..200u64 {
        w.spawn_ant(id, 0, 0, 0, 0);
    }
    let mut s = settings(0);
    s.wandering = 62_832;
    let first = w.begin_tick(&s);
    let second = w.begin_tick(&s);
    assert_eq!(first.len(), 200);
    assert!(first.iter().all(|p| p.wander >= -62_832 && p.wander <= 62_832));
    // the angles are drawn afresh for each ant and each tick
    assert!(first.iter().any(|p| p.wander != first[0].wander));
    assert_ne!(first, second);
    s.wandering = -62_832;
    assert!(w.begin_tick(&s).iter().all(|p| p.wander >= -62_832 && p.wander <= 62_832));
}

#[test]
fn a_cluster_is_forty_pieces_round_its_middle() {
    let mut w = World::new();
    assert_eq!(w.spawn_food_cluster(-218_000, -84_000, 100), 40);
    assert_eq!(w.foods.len(), 40);
    for (k, f) in w.foods.iter().enumerate() {
        assert_eq!(f.id, 100 + k as u64);
        assert!(f.x >= -238_000 && f.x <= -198_000);
        assert!(f.y >= -104_000 && f.y <= -64_000);
    }
    assert!(w.foods.iter().any(|f| (f.x, f.y) != (w.foods[0].x, w.foods[0].y)));
}

#[test]
fn a_cluster_leaves_out_the_ids_that_are_taken() {
    let mut w = World::new();
    w.spawn_food(5, 1, 1);
    w.spawn_ant(1, 0, 0, 0, 0);
    w.ants[0].carried_item = Some(7);
    assert_eq!(w.spawn_food_cluster(0, 0, 0), 38);
    assert_eq!(w.foods.len(), 39);
    assert_eq!(w.foods[0], Food { id: 5, x: 1, y: 1 });
    let ids: Vec<u64> = w.foods.iter().skip(1).map(|f| f.id).collect();
    let expected: Vec<u64> = (0..40u64).filter(|id| *id != 5 && *id != 7).collect();
    assert_eq!(ids, expected);
    // a second cluster under the same ids lays nothing
    assert_eq!(w.spawn_food_cluster(0, 0, 0), 0);
    assert_eq!(w.foods.len(), 39);
}

#[test]
fn a_cluster_ends_with_the_last_id_and_the_last_coordinate() {
    let mut w = World::new();
    assert_eq!(w.spawn_food_cluster(i32::MAX, i32::MIN, u64::MAX - 2), 3);
    let ids: Vec<u64> = w.foods.iter().map(|f| f.id).collect();
    assert_eq!(ids, vec![u64::MAX - 2, u64::MAX - 1, u64::MAX]);
    for f in &w.foods {
        assert!(f.x >= i32::MAX - 20_000);
        assert!(f.y <= i32::MIN + 20_000);
    }
}

#[test]
fn homes_are_taken_away_by_their_place() {
    let mut w = World::new();
    w.spawn_home(0, 0);
    w.spawn_home(100_000, 0);
    w.spawn_home(3_000, 3_000);
    // a home fills the square of side 10 round it, without its edges
    assert_eq!(w.despawn_homes_at(5_000, -2_000), 0);
    assert_eq!(w.homes.len(), 3);
    assert_eq!(w.despawn_homes_at(4_999, -1_999), 2);
    assert_eq!(w.homes, vec![Home { x: 100_000, y: 0, radius: 10_000 }]);
    assert_eq!(w.despawn_homes_at(4_999, -1_999), 0);
    assert_eq!(w.despawn_homes_at(100_000, 0), 1);
    assert!(w.homes.is_empty());
}

#[test]
fn an_obstacle_is_taken_away_by_its_cell() {
    let mut w = World::new();
    w.spawn_obstacle(3, 4);
    w.spawn_obstacle(3, 5);
    assert!(w.despawn_obstacle(3, 4));
    assert!(!w.map.is_obstacle(3, 4));
    assert!(w.map.is_obstacle(3, 5));
    assert!(w.despawn_obstacle(7, 7));
    assert!(!w.despawn_obstacle(90, 0));
}
