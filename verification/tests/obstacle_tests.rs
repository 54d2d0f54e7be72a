use ant_colony::collision::{collide, contains_point, Face, Rect};
use ant_colony::obstacle::{
    collide_tiles_with_rect, world_pos_from_tile_pos, tile_pos_from_world_pos, in_arena, sample_points, to_tile_center, MapError, MapParams,
    ObstacleMap, CELLS, COLUMNS, ROWS, TILE_SIZE,
};

fn params(octaves: u32, threshold: i64) -> MapParams {
    MapParams { octaves, frequency: 5_000, lacunarity: 1_000_000, persistence: 200_000, threshold }
}

fn ramp() -> Vec<i64> {
    (0..CELLS as i64).collect()
}

#[test]
fn the_grid_tiles_the_arena() {
    assert_eq!(COLUMNS as i32 * TILE_SIZE, 900_000);
    assert_eq!(ROWS as i32 * TILE_SIZE, 600_000);
    assert_eq!(CELLS, (COLUMNS * ROWS) as usize);
}

#[test]
fn centres_of_the_corner_cells() {
    assert_eq!(world_pos_from_tile_pos(0, 0), Some((-445_000, -295_000)));
    assert_eq!(world_pos_from_tile_pos(89, 59), Some((445_000, 295_000)));
    assert_eq!(world_pos_from_tile_pos(45, 30), Some((5_000, 5_000)));
    assert_eq!(world_pos_from_tile_pos(90, 0), None);
    assert_eq!(world_pos_from_tile_pos(0, 60), None);
}

#[test]
fn the_cell_of_a_point() {
    assert_eq!(tile_pos_from_world_pos(-450_000, -300_000), Some((0, 0)));
    assert_eq!(tile_pos_from_world_pos(449_999, 299_999), Some((89, 59)));
    assert_eq!(tile_pos_from_world_pos(0, 0), Some((45, 30)));
    assert_eq!(tile_pos_from_world_pos(-1, -1), Some((44, 29)));
    assert_eq!(tile_pos_from_world_pos(9_999, 10_000), Some((45, 31)));
    assert_eq!(tile_pos_from_world_pos(450_000, 0), None);
    assert_eq!(tile_pos_from_world_pos(0, 300_000), None);
    assert_eq!(tile_pos_from_world_pos(-450_001, 0), None);
    assert_eq!(tile_pos_from_world_pos(i32::MIN, i32::MAX), None);
}

#[test]
fn snapping_to_the_centre_of_the_square() {
    assert_eq!(to_tile_center(1, 1, 10_000), Some((5_000, 5_000)));
    assert_eq!(to_tile_center(-1, -1, 10_000), Some((-5_000, -5_000)));
    assert_eq!(to_tile_center(-10_000, 19_999, 10_000), Some((-5_000, 15_000)));
    assert_eq!(to_tile_center(0, 10_000, 10_000), Some((5_000, 15_000)));
    // beyond the arena and with other sizes
    assert_eq!(to_tile_center(450_000, -300_001, 10_000), Some((455_000, -305_000)));
    assert_eq!(to_tile_center(7, -7, 4), Some((6, -6)));
    assert_eq!(to_tile_center(7, -7, 5), Some((7, -8)));
    assert_eq!(to_tile_center(7, -7, 1), Some((7, -7)));
    assert_eq!(
        to_tile_center(i32::MAX, i32::MIN, i32::MAX),
        Some((3_221_225_470, -3_221_225_471))
    );
    assert_eq!(to_tile_center(1, 1, 0), None);
    assert_eq!(to_tile_center(1, 1, -10_000), None);
}

#[test]
fn a_centre_snaps_to_itself_and_holds_its_point() {
    for grid in [1, 2, 3, 10, 10_000, 12_345] {
        for v in [-100_000, -10_001, -10_000, -1, 0, 1, 4_999, 5_000, 9_999, 10_000, 77_777] {
            let (c, _) = to_tile_center(v, 0, grid).unwrap();
            let low = c - (grid / 2) as i64;
            assert_eq!(low.rem_euclid(grid as i64), 0);
            assert!(low <= v as i64 && (v as i64) < low + grid as i64);
            assert_eq!(to_tile_center(c as i32, 0, grid).unwrap().0, c);
        }
    }
}

#[test]
fn in_the_arena_the_centre_is_that_of_the_cell() {
    for (x, y) in [(0, 0), (-450_000, -300_000), (449_999, 299_999), (-1, 12_345)] {
        let (col, row) = tile_pos_from_world_pos(x, y).unwrap();
        let (cx, cy) = world_pos_from_tile_pos(col, row).unwrap();
        assert_eq!(to_tile_center(x, y, TILE_SIZE), Some((cx as i64, cy as i64)));
    }
}

#[test]
fn the_arena_without_its_edges() {
    assert!(in_arena(0, 0));
    assert!(in_arena(449_999, -299_999));
    assert!(!in_arena(450_000, 0));
    assert!(!in_arena(-450_000, 0));
    assert!(!in_arena(0, 300_000));
    assert!(!in_arena(0, -300_000));
}

#[test]
fn a_point_in_a_box_off_its_edges() {
    let b = Rect { x: 10, y: 20, width: 5, height: 40 };
    assert!(contains_point(&b, 10, 20));
    assert!(contains_point(&b, 12, 39));
    assert!(contains_point(&b, 8, 1));
    assert!(!contains_point(&b, 13, 20)); // the edge is at 12.5
    assert!(!contains_point(&b, 10, 40));
    assert!(!contains_point(&b, 10, 0));
    assert!(!contains_point(&Rect { x: 0, y: 0, width: 0, height: 0 }, 0, 0));
}

#[test]
fn one_sample_point_for_each_cell_column_by_column() {
    let points = sample_points();
    assert_eq!(points.len(), 5_400);
    assert_eq!(points[0], (-445_000, -295_000));
    assert_eq!(points[1], (-445_000, -285_000));
    assert_eq!(points[59], (-445_000, 295_000));
    assert_eq!(points[60], (-435_000, -295_000));
    assert_eq!(points[5_399], (445_000, 295_000));
    for (k, p) in points.iter().enumerate() {
        assert_eq!(tile_pos_from_world_pos(p.0, p.1), Some(((k / 60) as u32, (k % 60) as u32)));
    }
}

#[test]
fn a_new_map_has_no_obstacles() {
    let map = ObstacleMap::new();
    for col in 0..COLUMNS {
        for row in 0..ROWS {
            assert!(!map.is_obstacle(col, row));
        }
    }
    assert!(map.needs_rebuild(&params(4, 400_000)));
}

#[test]
fn a_cell_is_blocked_where_its_sample_reaches_the_threshold() {
    let mut map = ObstacleMap::new();
    assert_eq!(map.regenerate(params(4, 2_700), &ramp()), Ok(true));
    assert!(map.is_obstacle(45, 0)); // index 2_700
    assert!(!map.is_obstacle(44, 59)); // index 2_699
    assert!(map.is_obstacle(89, 59));
    assert!(!map.is_obstacle(0, 0));
    assert!(!map.is_obstacle(90, 0));
    assert!(!map.is_obstacle(45, 60));
    let mut blocked = 0;
    for col in 0..COLUMNS {
        for row in 0..ROWS {
            if map.is_obstacle(col, row) {
                blocked += 1;
            }
        }
    }
    assert_eq!(blocked, 2_700);
}

#[test]
fn the_same_parameters_do_not_remake_the_map() {
    let mut map = ObstacleMap::new();
    assert_eq!(map.regenerate(params(4, 2_700), &ramp()), Ok(true));
    assert!(!map.needs_rebuild(&params(4, 2_700)));
    let other: Vec<i64> = vec![0; CELLS];
    assert_eq!(map.regenerate(params(4, 2_700), &other), Ok(false));
    assert!(map.is_obstacle(45, 0));
    // not even a list of the wrong length is looked at
    assert_eq!(map.regenerate(params(4, 2_700), &Vec::new()), Ok(false));
}

#[test]
fn any_changed_parameter_remakes_the_map() {
    let base = params(4, 2_700);
    let changed = [
        MapParams { octaves: 5, ..base },
        MapParams { frequency: 5_001, ..base },
        MapParams { lacunarity: 999_999, ..base },
        MapParams { persistence: 0, ..base },
        MapParams { threshold: 2_701, ..base },
    ];
    for p in changed {
        let mut map = ObstacleMap::new();
        assert_eq!(map.regenerate(base, &ramp()), Ok(true));
        assert!(map.needs_rebuild(&p));
        assert_eq!(map.regenerate(p, &vec![0; CELLS]), Ok(true));
        assert!(!map.is_obstacle(89, 59));
        assert!(!map.needs_rebuild(&p));
        assert!(map.needs_rebuild(&base));
    }
}

#[test]
fn two_maps_from_the_same_input_are_the_same() {
    let samples: Vec<i64> = (0..CELLS as i64).map(|k| (k * 7_919) % 1_000 - 500).collect();
    let mut one = ObstacleMap::new();
    let mut two = ObstacleMap::new();
    two.set_obstacle(3, 3, true);
    assert_eq!(one.regenerate(params(4, 100), &samples), Ok(true));
    assert_eq!(two.regenerate(params(4, 100), &samples), Ok(true));
    for col in 0..COLUMNS {
        for row in 0..ROWS {
            assert_eq!(one.is_obstacle(col, row), two.is_obstacle(col, row));
            let k = (col * ROWS + row) as usize;
            assert_eq!(one.is_obstacle(col, row), samples[k] >= 100);
        }
    }
}

#[test]
fn a_wrong_number_of_samples_is_refused() {
    let mut map = ObstacleMap::new();
    assert_eq!(map.regenerate(params(4, 2_700), &ramp()), Ok(true));
    let short: Vec<i64> = vec![9_999; CELLS - 1];
    assert_eq!(map.regenerate(params(4, 0), &short), Err(MapError::WrongSampleCount));
    let long: Vec<i64> = vec![9_999; CELLS + 1];
    assert_eq!(map.regenerate(params(4, 0), &long), Err(MapError::WrongSampleCount));
    assert!(!map.is_obstacle(0, 0));
    assert!(map.is_obstacle(45, 0));
    assert!(!map.needs_rebuild(&params(4, 2_700)));
}

#[test]
fn no_octaves_give_no_obstacles() {
    let mut map = ObstacleMap::new();
    assert_eq!(map.regenerate(params(4, 0), &ramp()), Ok(true));
    assert!(map.is_obstacle(0, 0));
    assert_eq!(map.regenerate(params(0, 0), &ramp()), Ok(true));
    for col in 0..COLUMNS {
        for row in 0..ROWS {
            assert!(!map.is_obstacle(col, row));
        }
    }
    let mut other = ObstacleMap::new();
    assert_eq!(other.regenerate(params(0, 0), &Vec::new()), Ok(true));
    assert!(!other.needs_rebuild(&params(0, 0)));
}

#[test]
fn a_cell_is_blocked_and_freed_by_hand() {
    let mut map = ObstacleMap::new();
    assert!(map.set_obstacle(10, 20, true));
    assert!(map.is_obstacle(10, 20));
    assert!(!map.is_obstacle(20, 10));
    assert!(!map.is_obstacle(10, 21));
    assert!(map.set_obstacle(10, 20, false));
    assert!(!map.is_obstacle(10, 20));
    assert!(!map.set_obstacle(90, 0, true));
    assert!(!map.set_obstacle(0, 60, true));
    assert!(map.needs_rebuild(&params(4, 0)));
}

#[test]
fn a_body_hits_the_blocked_cells_that_it_overlaps() {
    let mut map = ObstacleMap::new();
    map.set_obstacle(45, 30, true); // centre (5_000, 5_000)
    map.set_obstacle(47, 30, true); // centre (25_000, 5_000)
    let body = Rect { x: 11_000, y: 5_000, width: 5_000, height: 5_000 };
    assert_eq!(collide_tiles_with_rect(&body, &map), vec![Face::Right]);
    let between = Rect { x: 15_000, y: 5_000, width: 12_000, height: 5_000 };
    assert_eq!(collide_tiles_with_rect(&between, &map), vec![Face::Right, Face::Left]);
    let away = Rect { x: 15_000, y: 5_000, width: 5_000, height: 5_000 };
    assert_eq!(collide_tiles_with_rect(&away, &map), Vec::new());
    let free = ObstacleMap::new();
    assert_eq!(collide_tiles_with_rect(&body, &free), Vec::new());
}

fn hits_by_looking_at_every_cell(body: &Rect, map: &ObstacleMap) -> Vec<Face> {
    let mut faces = Vec::new();
    for col in 0..COLUMNS {
        for row in 0..ROWS {
            if map.is_obstacle(col, row) {
                let (x, y) = world_pos_from_tile_pos(col, row).unwrap();
                let cell = Rect { x, y, width: TILE_SIZE, height: TILE_SIZE };
                if let Some(face) = collide(body, &cell) {
                    faces.push(face);
                }
            }
        }
    }
    faces
}

#[test]
fn hits_are_those_of_a_look_at_every_cell() {
    let samples: Vec<i64> = (0..CELLS as i64).map(|k| (k * 7_919) % 1_000).collect();
    let mut map = ObstacleMap::new();
    assert_eq!(map.regenerate(params(4, 600), &samples), Ok(true));
    let mut state: u64 = 12_345;
    let mut next = |span: i64| -> i32 {
        state = state.wrapping_mul(6_364_136_223_846_793_005).wrapping_add(1_442_695_040_888_963_407);
        ((state >> 33) as i64 % span) as i32
    };
    let mut some_hit = false;
    for _ in 0..2_000 {
        let body = Rect {
            x: next(1_000_000) - 500_000,
            y: next(700_000) - 350_000,
            width: next(30_000),
            height: next(30_000),
        };
        let faces = collide_tiles_with_rect(&body, &map);
        assert_eq!(faces, hits_by_looking_at_every_cell(&body, &map));
        some_hit = some_hit || !faces.is_empty();
    }
    assert!(some_hit);
}

#[test]
fn hits_at_the_edges_of_the_grid() {
    let mut map = ObstacleMap::new();
    map.set_obstacle(0, 0, true);
    map.set_obstacle(89, 59, true);
    map.set_obstacle(0, 59, true);
    let bodies = [
        Rect { x: -450_000, y: -300_000, width: 5_000, height: 5_000 },
        Rect { x: -439_000, y: -295_000, width: 5_000, height: 5_000 },
        Rect { x: 450_000, y: 300_000, width: 5_000, height: 5_000 },
        Rect { x: 445_000, y: 289_000, width: 5_000, height: 5_000 },
        Rect { x: -451_000, y: 295_000, width: 5_000, height: 5_000 },
        Rect { x: -460_000, y: 295_000, width: 5_000, height: 5_000 },
        Rect { x: 0, y: 0, width: 2_000_000, height: 2_000_000 },
        Rect { x: 0, y: 0, width: -5_000, height: -5_000 },
        Rect { x: i32::MAX, y: i32::MIN, width: i32::MAX, height: i32::MAX },
        Rect { x: i32::MIN, y: i32::MAX, width: i32::MIN, height: i32::MIN },
    ];
    for body in bodies {
        assert_eq!(collide_tiles_with_rect(&body, &map), hits_by_looking_at_every_cell(&body, &map));
    }
    assert_eq!(collide_tiles_with_rect(&bodies[1], &map), vec![Face::Right]);
    assert_eq!(collide_tiles_with_rect(&bodies[3], &map), vec![Face::Bottom]);
    assert_eq!(collide_tiles_with_rect(&bodies[4], &map), vec![Face::Left]);
    assert_eq!(collide_tiles_with_rect(&bodies[5], &map), Vec::new());
}
