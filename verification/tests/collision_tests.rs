use ant_colony::collision::{
    answer_hit, answer_hits, broad_phase, collide, damp, deflect, normalise, resolve_collisions,
    Face, Rect,
};
use ant_colony::geometry::{integer_sqrt, squared_distance, within};

fn rect(x: i32, y: i32, width: i32, height: i32) -> Rect {
    Rect { x, y, width, height }
}

#[test]
fn boxes_apart_do_not_collide() {
    let a = rect(0, 0, 5_000, 5_000);
    let b = rect(20_000, 0, 10_000, 10_000);
    assert_eq!(collide(&a, &b), None);
}

#[test]
fn touching_boxes_do_not_collide() {
    let a = rect(0, 0, 10_000, 10_000);
    let b = rect(10_000, 0, 10_000, 10_000);
    assert_eq!(collide(&a, &b), None);
}

#[test]
fn hit_from_the_left() {
    let a = rect(-6_000, 0, 5_000, 5_000);
    let b = rect(0, 0, 10_000, 10_000);
    assert_eq!(collide(&a, &b), Some(Face::Left));
}

#[test]
fn hit_from_the_right() {
    let a = rect(6_000, 0, 5_000, 5_000);
    let b = rect(0, 0, 10_000, 10_000);
    assert_eq!(collide(&a, &b), Some(Face::Right));
}

#[test]
fn hit_from_above() {
    let a = rect(0, 6_000, 5_000, 5_000);
    let b = rect(0, 0, 10_000, 10_000);
    assert_eq!(collide(&a, &b), Some(Face::Top));
}

#[test]
fn hit_from_below() {
    let a = rect(0, -6_000, 5_000, 5_000);
    let b = rect(0, 0, 10_000, 10_000);
    assert_eq!(collide(&a, &b), Some(Face::Bottom));
}

#[test]
fn corner_hit_reports_the_shallower_axis() {
    // 2_000 deep along x, 500 deep along y
    let a = rect(-5_500, -7_000, 5_000, 5_000);
    let b = rect(0, 0, 10_000, 10_000);
    assert_eq!(collide(&a, &b), Some(Face::Bottom));
    // 500 deep along x, 2_000 deep along y
    let c = rect(-7_000, -5_500, 5_000, 5_000);
    assert_eq!(collide(&c, &b), Some(Face::Left));
}

#[test]
fn corner_hit_of_equal_depth_reports_the_x_axis() {
    let a = rect(-6_000, 6_000, 5_000, 5_000);
    let b = rect(0, 0, 10_000, 10_000);
    assert_eq!(collide(&a, &b), Some(Face::Left));
}

#[test]
fn box_inside_another_hits_no_face() {
    let a = rect(0, 0, 2_000, 2_000);
    let b = rect(0, 0, 10_000, 10_000);
    assert_eq!(collide(&a, &b), None);
}

#[test]
fn broad_phase_drops_what_is_further_than_the_longest_side() {
    let b = rect(0, 0, 10_000, 620_000);
    assert!(broad_phase(0, 620_000, &b));
    assert!(!broad_phase(0, 620_001, &b));
    assert!(broad_phase(620_000, 0, &b));
    assert!(!broad_phase(-620_001, 0, &b));
    // 372^2 + 496^2 == 620^2
    assert!(broad_phase(-372_000, 496_000, &b));
    assert!(!broad_phase(372_001, 496_000, &b));
    let wide = rect(5, 5, 30, 4);
    assert!(broad_phase(5 + 18, 5 + 24, &wide));
    assert!(!broad_phase(5 + 18, 5 + 25, &wide));
    assert!(broad_phase(5, 5, &rect(5, 5, 0, 0)));
    assert!(!broad_phase(5, 6, &rect(5, 5, 0, 0)));
}

#[test]
fn damping_turns_round_and_cuts_to_a_tenth() {
    assert_eq!(damp(1_000_000), -100_000);
    assert_eq!(damp(-1_000_000), 100_000);
    assert_eq!(damp(19), -1);
    assert_eq!(damp(-19), 1);
    assert_eq!(damp(9), 0);
    assert_eq!(damp(0), 0);
    assert_eq!(damp(i32::MIN), 214_748_364);
    assert_eq!(damp(i32::MAX), -214_748_364);
}

#[test]
fn left_hit_damps_a_heading_that_points_right() {
    assert_eq!(deflect(Face::Left, 800_000, 600_000), (-80_000, 600_000));
}

#[test]
fn left_hit_leaves_a_heading_that_points_away() {
    assert_eq!(deflect(Face::Left, -800_000, 600_000), (-800_000, 600_000));
    assert_eq!(deflect(Face::Left, 0, 600_000), (0, 600_000));
}

#[test]
fn each_face_damps_only_the_opposing_component() {
    assert_eq!(deflect(Face::Right, -800_000, 600_000), (80_000, 600_000));
    assert_eq!(deflect(Face::Right, 800_000, 600_000), (800_000, 600_000));
    assert_eq!(deflect(Face::Top, 800_000, -600_000), (800_000, 60_000));
    assert_eq!(deflect(Face::Top, 800_000, 600_000), (800_000, 600_000));
    assert_eq!(deflect(Face::Bottom, 800_000, 600_000), (800_000, -60_000));
    assert_eq!(deflect(Face::Bottom, 800_000, -600_000), (800_000, -600_000));
}

#[test]
fn square_roots_round_down() {
    assert_eq!(integer_sqrt(0), 0);
    assert_eq!(integer_sqrt(1), 1);
    assert_eq!(integer_sqrt(3), 1);
    assert_eq!(integer_sqrt(4), 2);
    assert_eq!(integer_sqrt(24), 4);
    assert_eq!(integer_sqrt(25), 5);
    assert_eq!(integer_sqrt(2_000_000_000_000), 1_414_213);
    assert_eq!(integer_sqrt(u64::MAX), 4_294_967_295);
    assert_eq!(integer_sqrt(4_294_967_295 * 4_294_967_295), 4_294_967_295);
    assert_eq!(integer_sqrt(4_294_967_295 * 4_294_967_295 - 1), 4_294_967_294);
}

#[test]
fn squared_distances() {
    assert_eq!(squared_distance(0, 0, 3, 4), 25);
    assert_eq!(squared_distance(-1, -1, -1, -1), 0);
    assert_eq!(
        squared_distance(i32::MIN, i32::MAX, i32::MAX, i32::MIN),
        2 * 4_294_967_295i128 * 4_294_967_295i128
    );
}

#[test]
fn reach_is_strict_and_needs_a_radius() {
    assert!(within(0, 0, 3, 4, 6));
    assert!(!within(0, 0, 3, 4, 5));
    assert!(!within(0, 0, 0, 0, 0));
    assert!(!within(0, 0, 0, 0, -1));
    assert!(within(0, 0, 0, 0, 1));
    assert!(!within(i64::MIN, i64::MIN, i64::MAX, i64::MAX, i64::MAX));
    assert!(within(i64::MAX, i64::MIN, i64::MAX - 1, i64::MIN + 1, 2));
}

#[test]
fn a_heading_has_the_length_of_one_whole() {
    assert_eq!(normalise(3, 4), (600_000, 800_000));
    assert_eq!(normalise(-3, 4), (-600_000, 800_000));
    assert_eq!(normalise(1, 0), (1_000_000, 0));
    assert_eq!(normalise(0, -7), (0, -1_000_000));
    assert_eq!(normalise(i32::MAX, 0), (1_000_000, 0));
    assert_eq!(normalise(i32::MIN, i32::MIN), (-707_106, -707_106));
    assert_eq!(normalise(-80_000, 600_000), (-132_163, 991_229));
    assert_eq!(normalise(0, 0), (0, 0));
}

#[test]
fn a_hit_turns_the_heading_along_the_deflected_direction() {
    assert_eq!(answer_hit(Face::Left, 1_000_000, 0), (-1_000_000, 0));
    assert_eq!(answer_hit(Face::Left, 800_000, 600_000), (-132_163, 991_229));
    assert_eq!(answer_hit(Face::Right, -800_000, -600_000), (132_163, -991_229));
    assert_eq!(answer_hit(Face::Top, -800_000, -600_000), (-997_200, 74_790));
    assert_eq!(answer_hit(Face::Bottom, 800_000, 600_000), (997_200, -74_790));
}

#[test]
fn a_hit_leaves_a_heading_that_points_away() {
    assert_eq!(answer_hit(Face::Left, -800_000, -600_000), (-800_000, -600_000));
    assert_eq!(answer_hit(Face::Right, 800_000, 600_000), (800_000, 600_000));
    assert_eq!(answer_hit(Face::Top, 800_000, 600_000), (800_000, 600_000));
    assert_eq!(answer_hit(Face::Bottom, -800_000, -600_000), (-800_000, -600_000));
    // not even a heading of the wrong length is touched
    assert_eq!(answer_hit(Face::Left, -8, 6), (-8, 6));
    assert_eq!(answer_hit(Face::Left, 0, 6), (0, 6));
}

#[test]
fn hits_are_answered_in_order() {
    let faces = vec![Face::Left, Face::Bottom, Face::Right];
    assert_eq!(answer_hits(800_000, 600_000, &faces), (132_163, -991_229));
    assert_eq!(answer_hits(800_000, 600_000, &faces[..2].to_vec()), (-800_003, -600_001));
    assert_eq!(answer_hits(800_000, 600_000, &Vec::new()), (800_000, 600_000));
}

#[test]
fn ant_moving_right_into_a_left_face_is_damped() {
    let body = rect(-6_000, 0, 5_000, 5_000);
    let obstacle = rect(0, 0, 10_000, 10_000);
    assert_eq!(collide(&body, &obstacle), Some(Face::Left));
    // the direction keeps a tenth of its x component, turned round
    assert_eq!(deflect(Face::Left, 1_000_000, 0), (-100_000, 0));
    assert_eq!(deflect(Face::Left, 800_000, 600_000), (-80_000, 600_000));
    // and the heading points along it
    assert_eq!(resolve_collisions(&body, 1_000_000, 0, &vec![obstacle]), (-1_000_000, 0));
    assert_eq!(
        resolve_collisions(&body, 800_000, 600_000, &vec![obstacle]),
        (-132_163, 991_229)
    );
}

#[test]
fn far_obstacle_is_skipped_by_the_broad_phase() {
    // overlapping boxes whose centres are further apart than the longest side
    let body = rect(-9_000, -9_000, 10_000, 10_000);
    let obstacle = rect(0, 0, 10_000, 10_000);
    assert!(collide(&body, &obstacle).is_some());
    assert!(!broad_phase(body.x, body.y, &obstacle));
    assert_eq!(
        resolve_collisions(&body, 1_000_000, 1_000_000, &vec![obstacle]),
        (1_000_000, 1_000_000)
    );
}

#[test]
fn later_obstacles_meet_the_heading_left_by_earlier_ones() {
    let body = rect(0, 0, 5_000, 5_000);
    let right_wall = rect(6_000, 0, 10_000, 10_000); // body hits its left face
    let top_wall = rect(0, 6_000, 10_000, 10_000); // body hits its bottom face
    let first = resolve_collisions(&body, 1_000_000, 1_000_000, &vec![right_wall]);
    assert_eq!(first, (-99_503, 995_037));
    let out = resolve_collisions(&body, 1_000_000, 1_000_000, &vec![right_wall, top_wall]);
    assert_eq!(out, (-707_109, -707_109));
    let again = resolve_collisions(&body, out.0, out.1, &vec![right_wall, top_wall]);
    assert_eq!(again, out);
}
