use obj_to_pathfinding_grid::fixed::{WorldVector, UNIT};
use obj_to_pathfinding_grid::geometry::{BoundingBox, LocalVector, Triangle, WorldVoxel};

fn units(x: i64, y: i64, z: i64) -> WorldVector {
    WorldVector::from_units(x, y, z)
}

#[test]
fn test_is_inside() {
    let a = units(0, 0, 0);
    let b = units(5, 5, 5);
    let c = units(-5, 5, -5);

    let triangle = Triangle::new(a, b, c);

    assert!(triangle.is_inside(&WorldVoxel::new(0, 0, 0)));
    assert!(triangle.is_inside(&WorldVoxel::new(5, 5, 5)));
    assert!(!triangle.is_inside(&WorldVoxel::new(-1, -1, -1)));
    assert!(!triangle.is_inside(&WorldVoxel::new(6, 6, 6)));
    assert!(!triangle.is_inside(&WorldVoxel::new(10, 5, 0)));
    assert!(!triangle.is_inside(&WorldVoxel::new(-3, 6, -2)));
}

#[test]
fn test_scale() {
    let a = units(0, 0, 0);
    let b = units(5, 5, 5);
    let c = units(-5, 5, -5);

    let triangle = Triangle::new(a, b, c);
    let scaled_triangle = triangle.scale(2 * UNIT);

    let scaled_a = units(0, 0, 0);
    let scaled_b = units(10, 10, 10);
    let scaled_c = units(-10, 10, -10);

    assert_eq!(scaled_triangle.a, scaled_a);
    assert_eq!(scaled_triangle.b, scaled_b);
    assert_eq!(scaled_triangle.c, scaled_c);
}

#[test]
fn geometry_test_bounding_box() {
    let a = units(0, 0, 0);
    let b = units(5, 5, 5);
    let c = units(-5, 5, -5);

    let triangle = Triangle::new(a, b, c);
    let bounding_box = triangle.bounding_box();

    let min = units(-6, -1, -6);
    let max = units(6, 6, 6);

    assert_eq!(bounding_box.min, min);
    assert_eq!(bounding_box.max, max);
}

#[test]
fn test_bounding_box2() {
    let a = units(0, 0, 0);
    let b = units(5, 5, 0);
    let c = units(-5, -5, 0);

    let triangle = Triangle::new(a, b, c);
    let bounding_box = triangle.bounding_box();

    let min = units(-6, -6, -1);
    let max = units(6, 6, 1);

    assert_eq!(bounding_box.min, min);
    assert_eq!(bounding_box.max, max);
}

fn to_local_vector(vector: &WorldVector) -> LocalVector {
    LocalVector::from_world_vector(vector, &units(0, 0, 0), 500, 500)
}

#[test]
fn test_from_world_vector() {
    let local1 = to_local_vector(&units(0, 0, 0));
    let local2 = to_local_vector(&units(250, 250, 250));
    let local3 = to_local_vector(&units(-250, -250, -250));
    let local4 = to_local_vector(&units(150, 150, 150));
    let local5 = to_local_vector(&units(-150, -250, -150));
    let local6 = to_local_vector(&units(-251, -251, -251));
    let local7 = to_local_vector(&units(251, 251, 251));

    assert_eq!(local1, LocalVector::new(250, 250, 250));
    assert_eq!(local2, LocalVector::new(500, 500, 500));
    assert_eq!(local3, LocalVector::new(0, 0, 0));
    assert_eq!(local4, LocalVector::new(400, 400, 400));
    assert_eq!(local5, LocalVector::new(100, 0, 100));
    assert_eq!(local6, LocalVector::new(0, 0, 0));
    assert_eq!(local7, LocalVector::new(500, 500, 500));
}

fn offset_center() -> WorldVector {
    WorldVector::new(366_666_656, -13_866_666_016, 84_290_909)
}

#[test]
fn test_from_world_vector2() {
    let to_local = |vector: &WorldVector| {
        LocalVector::from_world_vector(vector, &offset_center(), 500, 500)
    };

    let local1 = to_local(&WorldVector::new(366_666_656, -13_866_666_016, 84_290_909));
    let local2 = to_local(&WorldVector::new(404_166_656, -14_024_999_023, 22_343_037));

    assert_eq!(local1, LocalVector::new(250, 250, 250));
    assert_eq!(local2, LocalVector::new(288, 92, 188));
}

#[test]
fn test_to_world_vector() {
    let from_local = |vector: &LocalVector| vector.to_world_vector(&units(0, 0, 0), 500, 500);

    let local1 = from_local(&LocalVector::new(250, 250, 250));
    let local2 = from_local(&LocalVector::new(500, 500, 500));
    let local3 = from_local(&LocalVector::new(0, 0, 0));
    let local4 = from_local(&LocalVector::new(400, 400, 400));
    let local5 = from_local(&LocalVector::new(100, 0, 100));

    assert_eq!(local1, WorldVoxel::new(0, 0, 0));
    assert_eq!(local2, WorldVoxel::new(250, 250, 250));
    assert_eq!(local3, WorldVoxel::new(-250, -250, -250));
    assert_eq!(local4, WorldVoxel::new(150, 150, 150));
    assert_eq!(local5, WorldVoxel::new(-150, -250, -150));
}

#[test]
fn test_to_world_vector2() {
    let from_local = |vector: &LocalVector| vector.to_world_vector(&offset_center(), 500, 500);

    let local1 = from_local(&LocalVector::new(250, 250, 250));
    let local2 = from_local(&LocalVector::new(288, 92, 188));

    assert_eq!(local1, WorldVoxel::new(367, -13867, 84));
    assert_eq!(local2, WorldVoxel::new(405, -14025, 22));
}

#[test]
fn test_to_world_vector3() {
    let from_local = |vector: &LocalVector| vector.to_world_vector(&units(200, 200, 75), 400, 150);

    let local1 = from_local(&LocalVector::new(0, 0, 0));
    let local2 = from_local(&LocalVector::new(400, 400, 150));

    assert_eq!(local1, WorldVoxel::new(0, 0, 0));
    assert_eq!(local2, WorldVoxel::new(400, 400, 150));
}

#[test]
fn test_bounding_box_center() {
    let min = units(-200, -200, -200);
    let max = units(200, 200, 200);

    let bounding_box = BoundingBox::new(min, max);

    assert_eq!(bounding_box.center(), units(0, 0, 0));
}

#[test]
fn test_bounding_box_width() {
    let min = units(-100, -200, -200);
    let max = units(100, 200, 200);

    let bounding_box = BoundingBox::new(min, max);

    assert_eq!(bounding_box.width(), 400 * UNIT);
}

#[test]
fn test_bounding_box_height() {
    let min = units(-100, -200, -200);
    let max = units(100, 200, 200);

    let bounding_box = BoundingBox::new(min, max);

    assert_eq!(bounding_box.height(), 400 * UNIT);
}
