use obj_to_pathfinding_grid::fixed::{round_units, WorldVector, UNIT};
use obj_to_pathfinding_grid::geometry::{BoundingBox, LocalVector, Triangle, WorldVoxel};
use obj_to_pathfinding_grid::scan::find_obstacles;
use obj_to_pathfinding_grid::{
    bounding_box, convert, obstacles_of, parse_triangles, percent_hundredths, NoOpPreprocessor, Preprocessor,
    Progress,
};
use std::cell::RefCell;
use std::collections::BTreeSet;
use std::rc::Rc;

fn units(x: i64, y: i64, z: i64) -> WorldVector {
    WorldVector::from_units(x, y, z)
}

fn diagonal_triangle() -> Triangle {
    Triangle::new(units(0, 0, 0), units(5, 5, 0), units(-5, -5, 0))
}

fn diagonal_obstacles() -> Vec<LocalVector> {
    vec![
        LocalVector::new(0, 0, 5),
        LocalVector::new(0, 1, 5),
        LocalVector::new(1, 0, 5),
        LocalVector::new(1, 1, 5),
        LocalVector::new(1, 2, 5),
        LocalVector::new(2, 1, 5),
        LocalVector::new(2, 2, 5),
        LocalVector::new(2, 3, 5),
        LocalVector::new(3, 2, 5),
        LocalVector::new(3, 3, 5),
        LocalVector::new(3, 4, 5),
        LocalVector::new(4, 3, 5),
        LocalVector::new(4, 4, 5),
        LocalVector::new(4, 5, 5),
        LocalVector::new(5, 4, 5),
        LocalVector::new(5, 5, 5),
        LocalVector::new(5, 6, 5),
        LocalVector::new(6, 5, 5),
        LocalVector::new(6, 6, 5),
        LocalVector::new(6, 7, 5),
        LocalVector::new(7, 6, 5),
        LocalVector::new(7, 7, 5),
        LocalVector::new(7, 8, 5),
        LocalVector::new(8, 7, 5),
        LocalVector::new(8, 8, 5),
        LocalVector::new(8, 9, 5),
        LocalVector::new(9, 8, 5),
        LocalVector::new(9, 9, 5),
    ]
}

#[test]
fn test_find_obstacles() {
    let triangle = diagonal_triangle();
    let center = units(0, 0, 0);

    let obstacles = find_obstacles(&triangle, &center, 10, 10);

    assert_eq!(diagonal_obstacles(), obstacles)
}

#[test]
fn lib_test_bounding_box() {
    let triangle = diagonal_triangle();
    let bounding_box = bounding_box(&vec![triangle]);

    let min = units(-6, -6, -1);
    let max = units(6, 6, 1);

    assert_eq!(bounding_box.min, min);
    assert_eq!(bounding_box.max, max);
}

#[test]
fn bounding_box_of_no_triangles_is_the_origin() {
    let b = bounding_box(&vec![]);
    assert_eq!(b, BoundingBox::new(units(0, 0, 0), units(0, 0, 0)));
}

#[test]
fn bounding_box_rounds_and_spans_all_triangles() {
    let t1 = Triangle::new(
        WorldVector::new(1_400_000, 0, 0),
        units(2, 2, 2),
        units(3, 1, 0),
    );
    let t2 = Triangle::new(
        WorldVector::new(-2_600_000, 0, 0),
        units(1, 7, 0),
        units(0, 0, -1),
    );
    let b = bounding_box(&vec![t1, t2]);
    assert_eq!(b.min, units(-4, -1, -2));
    assert_eq!(b.max, units(4, 8, 3));
}

#[test]
fn is_inside_ignores_vertex_order() {
    let a = units(0, 0, 0);
    let b = units(5, 5, 5);
    let c = units(-5, 5, -5);
    let orders = [
        Triangle::new(a, b, c),
        Triangle::new(b, a, c),
        Triangle::new(b, c, a),
        Triangle::new(c, a, b),
        Triangle::new(a, c, b),
        Triangle::new(c, b, a),
    ];
    for x in -7..8 {
        for y in -2..8 {
            for z in -7..8 {
                let voxel = WorldVoxel::new(x, y, z);
                let expected = orders[0].is_inside(&voxel);
                for t in orders.iter() {
                    assert_eq!(t.is_inside(&voxel), expected);
                }
            }
        }
    }
}

#[test]
fn voxel_at_a_point_of_the_triangle_meets_it() {
    let triangle = Triangle::new(units(0, 0, 0), units(6, 0, 3), units(0, 9, -3));
    // The centroid (2, 3, 0) and the vertices are points of the triangle.
    assert!(triangle.is_inside(&WorldVoxel::new(2, 3, 0)));
    assert!(triangle.is_inside(&WorldVoxel::new(0, 0, 0)));
    assert!(triangle.is_inside(&WorldVoxel::new(6, 0, 3)));
    assert!(triangle.is_inside(&WorldVoxel::new(0, 9, -3)));
}

#[test]
fn voxel_apart_from_the_bounds_misses() {
    let triangle = Triangle::new(units(0, 0, 0), units(6, 0, 3), units(0, 9, -3));
    assert!(!triangle.is_inside(&WorldVoxel::new(8, 0, 0)));
    assert!(!triangle.is_inside(&WorldVoxel::new(0, -2, 0)));
    assert!(!triangle.is_inside(&WorldVoxel::new(0, 0, 5)));
    assert!(!triangle.is_inside(&WorldVoxel::new(1_000_000_000_000, 0, 0)));
}

#[test]
fn voxel_off_the_plane_misses() {
    let triangle = Triangle::new(units(-5, -5, 0), units(5, -5, 0), units(0, 5, 0));
    assert!(triangle.is_inside(&WorldVoxel::new(0, 0, 0)));
    assert!(!triangle.is_inside(&WorldVoxel::new(0, 0, 1)));
    assert!(!triangle.is_inside(&WorldVoxel::new(0, 0, -1)));
}

#[test]
fn voxel_beside_an_edge_misses() {
    // Long thin triangle along the line x = y in the plane z = 0: the voxel
    // at (0, 3, 0) lies within the bounds and the plane but off the edge.
    let triangle = Triangle::new(units(0, 0, 0), units(10, 10, 0), units(10, 9, 0));
    assert!(triangle.is_inside(&WorldVoxel::new(5, 5, 0)));
    assert!(!triangle.is_inside(&WorldVoxel::new(0, 3, 0)));
    assert!(!triangle.is_inside(&WorldVoxel::new(8, 3, 0)));
}

#[test]
fn center_maps_to_grid_middle() {
    let center = units(0, 0, 0);
    let local = LocalVector::from_world_vector(&center, &center, 500, 500);
    assert_eq!(local, LocalVector::new(250, 250, 250));
    let far = LocalVector::from_world_vector(&units(-900, 251, 10_000), &center, 500, 500);
    assert_eq!(far, LocalVector::new(0, 500, 500));
}

#[test]
fn mapping_is_clamped_to_grid() {
    let center = units(3, -4, 5);
    let extremes = [i64::MIN, -1, 0, 1, i64::MAX];
    for &x in extremes.iter() {
        for &z in extremes.iter() {
            let local = LocalVector::from_world_vector(&WorldVector::new(x, x, z), &center, 7, 3);
            assert!(local.x <= 7 && local.y <= 7 && local.z <= 3);
        }
    }
    let low = LocalVector::from_world_vector(&WorldVector::new(i64::MIN, i64::MIN, i64::MIN), &center, 7, 3);
    assert_eq!(low, LocalVector::new(0, 0, 0));
    let high = LocalVector::from_world_vector(&WorldVector::new(i64::MAX, i64::MAX, i64::MAX), &center, 7, 3);
    assert_eq!(high, LocalVector::new(7, 7, 3));
}

#[test]
fn round_trip_stays_within_one_unit() {
    let center = WorldVector::new(1_400_000, -2_500_000, 600_000);
    let world = WorldVector::new(-3_700_000, 1_499_999, 2_500_000);
    let local = LocalVector::from_world_vector(&world, &center, 20, 10);
    let back = local.to_world_vector(&center, 20, 10);
    assert_eq!(local, LocalVector::new(5, 14, 7));
    assert_eq!(back, WorldVoxel::new(-4, 1, 3));
    assert!((back.x * UNIT - world.x).abs() <= UNIT);
    assert!((back.y * UNIT - world.y).abs() <= UNIT);
    assert!((back.z * UNIT - world.z).abs() <= UNIT);
}

#[test]
fn rounding_goes_half_away_from_zero() {
    assert_eq!(round_units(1_500_000), 2);
    assert_eq!(round_units(-1_500_000), -2);
    assert_eq!(round_units(1_499_999), 1);
    assert_eq!(round_units(-1_499_999), -1);
    assert_eq!(round_units(0), 0);
}

#[test]
fn scale_rounds_each_coordinate() {
    let t = Triangle::new(WorldVector::new(1, -1, 3), units(2, 0, -4), WorldVector::new(0, 0, 0));
    let s = t.scale(1_500_000);
    assert_eq!(s.a, WorldVector::new(2, -2, 5));
    assert_eq!(s.b, units(3, 0, -6));
    assert_eq!(s.c, WorldVector::new(0, 0, 0));
}

#[test]
fn box_center_rounds_down() {
    let b = BoundingBox::new(WorldVector::new(-3, 0, 1), WorldVector::new(0, 5, 2));
    assert_eq!(b.center(), WorldVector::new(-2, 2, 1));
}

#[test]
fn parse_triangles_keeps_three_vertex_polygons() {
    let positions = vec![units(0, 0, 0), units(1, 0, 0), units(0, 1, 0), units(0, 0, 1)];
    let polygons = vec![vec![0, 1, 2], vec![0, 1, 2, 3], vec![3, 2, 1], vec![0, 1]];
    let triangles = parse_triangles(&positions, &polygons);
    assert_eq!(
        triangles,
        vec![
            Triangle::new(positions[0], positions[1], positions[2]),
            Triangle::new(positions[3], positions[2], positions[1]),
        ]
    );
}

#[test]
fn progress_counts_hundredths_of_a_percent() {
    assert_eq!(percent_hundredths(1, 3), 3333);
    assert_eq!(percent_hundredths(2, 3), 6666);
    assert_eq!(percent_hundredths(3, 3), 10000);
    assert_eq!(percent_hundredths(0, 7), 0);
}

struct Recorder {
    seen: Rc<RefCell<Vec<u64>>>,
}

impl Progress for Recorder {
    fn update_progress(&self, percent_hundredths: u64) {
        self.seen.borrow_mut().push(percent_hundredths);
    }
}

struct SkipFirstVertexAtOrigin {}

impl Preprocessor for SkipFirstVertexAtOrigin {
    fn processed(&self, triangle: Triangle, _width: u32, _height: u32, _center: WorldVector) -> Option<Triangle> {
        if triangle.a == units(0, 0, 0) {
            None
        } else {
            Some(triangle)
        }
    }

    fn pre_process(&self, triangle: Triangle, width: u32, height: u32, center: WorldVector) -> Option<Triangle> {
        self.processed(triangle, width, height, center)
    }
}

#[test]
fn convert_scans_each_triangle_in_order() {
    let other = Triangle::new(units(2, 2, 2), units(2, 2, 2), units(2, 2, 2));
    let triangles = vec![diagonal_triangle(), other, diagonal_triangle()];
    let seen = Rc::new(RefCell::new(Vec::new()));
    let progress = Recorder { seen: seen.clone() };
    let obstacles = convert(triangles, units(0, 0, 0), 10, 10, progress, NoOpPreprocessor {});
    let mut expected = diagonal_obstacles();
    expected.push(LocalVector::new(7, 7, 7));
    expected.extend(diagonal_obstacles());
    assert_eq!(obstacles, expected);
    assert_eq!(*seen.borrow(), vec![3333, 6666, 10000]);
}

#[test]
fn convert_leaves_out_skipped_triangles() {
    let other = Triangle::new(units(2, 2, 2), units(2, 2, 2), units(2, 2, 2));
    let triangles = vec![diagonal_triangle(), other];
    let seen = Rc::new(RefCell::new(Vec::new()));
    let progress = Recorder { seen: seen.clone() };
    let obstacles = convert(triangles, units(0, 0, 0), 10, 10, progress, SkipFirstVertexAtOrigin {});
    assert_eq!(obstacles, vec![LocalVector::new(7, 7, 7)]);
    assert_eq!(*seen.borrow(), vec![5000, 10000]);
}

#[test]
fn obstacles_of_skipped_or_unrepresentable_triangle_is_empty() {
    let center = units(0, 0, 0);
    assert!(obstacles_of(None, &center, 10, 10).is_empty());
    let huge = Triangle::new(WorldVector::new(i64::MAX, 0, 0), units(0, 0, 0), units(1, 1, 1));
    assert!(obstacles_of(Some(huge), &center, 10, 10).is_empty());
    assert_eq!(obstacles_of(Some(diagonal_triangle()), &center, 10, 10), diagonal_obstacles());
}

#[test]
fn writing_a_voxel_twice_sets_the_same_cells() {
    let progress_once = Recorder { seen: Rc::new(RefCell::new(Vec::new())) };
    let progress_twice = Recorder { seen: Rc::new(RefCell::new(Vec::new())) };
    let once = convert(vec![diagonal_triangle()], units(0, 0, 0), 10, 10, progress_once, NoOpPreprocessor {});
    let twice = convert(
        vec![diagonal_triangle(), diagonal_triangle()],
        units(0, 0, 0),
        10,
        10,
        progress_twice,
        NoOpPreprocessor {},
    );
    assert_eq!(twice.len(), 2 * once.len());
    let cells = |writes: &Vec<LocalVector>| -> BTreeSet<(u32, u32, u32)> {
        writes.iter().map(|v| (v.x, v.y, v.z)).collect()
    };
    assert_eq!(cells(&once), cells(&twice));
}

#[test]
fn no_op_preprocessor_hands_triangle_back() {
    let t = diagonal_triangle();
    assert_eq!(NoOpPreprocessor {}.pre_process(t, 3, 4, units(1, 2, 3)), Some(t));
}

#[test]
fn convert_in_another_order_sets_the_same_cells() {
    let other = Triangle::new(units(2, 2, 2), units(2, 2, 2), units(2, 2, 2));
    let first = convert(
        vec![diagonal_triangle(), other],
        units(0, 0, 0),
        10,
        10,
        Recorder { seen: Rc::new(RefCell::new(Vec::new())) },
        NoOpPreprocessor {},
    );
    let second = convert(
        vec![other, diagonal_triangle()],
        units(0, 0, 0),
        10,
        10,
        Recorder { seen: Rc::new(RefCell::new(Vec::new())) },
        NoOpPreprocessor {},
    );
    let cells = |writes: &Vec<LocalVector>| -> BTreeSet<(u32, u32, u32)> {
        writes.iter().map(|v| (v.x, v.y, v.z)).collect()
    };
    assert_ne!(first, second);
    assert_eq!(cells(&first), cells(&second));
}
