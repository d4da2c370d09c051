//! Grid coordinates, bounding boxes and triangles.
use crate::fixed::{round_units, rounded_units, COORD_LIMIT, HALF_UNIT, UNIT, WorldVector};
use crate::intersect::{
    abs, axis_test_mzx, axis_test_yx, axis_test_zy, bounded, cross3, cube_meets_triangle, dot3,
    edge_axes_pass, lemma_edge_axis_components, max3, min3, min_max_overlaps, radius, separates,
    sub3, unit_x, unit_y, unit_z, Coords, Vec3i,
};
use vstd::prelude::*;

verus! {

/// A grid-local coordinate: a voxel of the occupancy grid, counted from its
/// lowest corner.
#[derive(Clone, Copy, Debug, PartialEq, Eq, Structural)]
pub struct LocalVector {
    pub x: u32,
    pub y: u32,
    pub z: u32,
}

/// Grid-local coordinate on one axis of the world coordinate `world`: half
/// the extent, less the offset from `center` to `world` rounded to whole
/// units, pinned to `[0, extent]`.
pub open spec fn local_coord(world: int, center: int, extent: int) -> int {
    let c = extent / 2 - rounded_units(center - world);
    if c < 0 {
        0
    } else if c > extent {
        extent
    } else {
        c
    }
}

/// World coordinate, in whole units, of the grid-local coordinate `local`
/// on one axis: the rounded center less half the extent, plus `local`.
pub open spec fn world_coord(local: int, center: int, extent: int) -> int {
    rounded_units(center) - extent / 2 + local
}

fn local_coord_exec(world: i64, center: i64, extent: u32) -> (r: u32)
    ensures
        r == local_coord(world as int, center as int, extent as int),
{
    let offset = round_units(center as i128 - world as i128);
    let c = (extent / 2) as i128 - offset;
    if c < 0 {
        0
    } else if c > extent as i128 {
        extent
    } else {
        c as u32
    }
}

fn world_coord_exec(local: u32, center: i64, extent: u32) -> (r: i64)
    ensures
        r == world_coord(local as int, center as int, extent as int),
{
    let rounded = round_units(center as i128) as i64;
    rounded - (extent / 2) as i64 + local as i64
}

impl LocalVector {
    pub fn new(x: u32, y: u32, z: u32) -> (r: Self)
        ensures
            r == (LocalVector { x, y, z }),
    {
        LocalVector { x, y, z }
    }

    /// The grid-local coordinate of a world point, for a grid of the given
    /// width (X and Y) and height (Z) around `center`.
    pub open spec fn of_world(vector: WorldVector, center: WorldVector, width: u32, height: u32) -> LocalVector {
        LocalVector {
            x: local_coord(vector.x as int, center.x as int, width as int) as u32,
            y: local_coord(vector.y as int, center.y as int, width as int) as u32,
            z: local_coord(vector.z as int, center.z as int, height as int) as u32,
        }
    }

    /// The world voxel of this grid-local coordinate.
    pub open spec fn world_of(self, center: WorldVector, width: u32, height: u32) -> WorldVoxel {
        WorldVoxel {
            x: world_coord(self.x as int, center.x as int, width as int) as i64,
            y: world_coord(self.y as int, center.y as int, width as int) as i64,
            z: world_coord(self.z as int, center.z as int, height as int) as i64,
        }
    }

    /// Converts a world point to grid-local coordinates; a point beyond the
    /// grid's bounds gets the coordinate of the nearest border.
    pub fn from_world_vector(vector: &WorldVector, center: &WorldVector, width: u32, height: u32) -> (r: Self)
        ensures
            r.x == local_coord(vector.x as int, center.x as int, width as int),
            r.y == local_coord(vector.y as int, center.y as int, width as int),
            r.z == local_coord(vector.z as int, center.z as int, height as int),
            r == Self::of_world(*vector, *center, width, height),
            r.x <= width && r.y <= width && r.z <= height,
    {
        let x = local_coord_exec(vector.x, center.x, width);
        let y = local_coord_exec(vector.y, center.y, width);
        let z = local_coord_exec(vector.z, center.z, height);
        LocalVector { x, y, z }
    }

    /// Converts grid-local coordinates to the world voxel they stand for.
    pub fn to_world_vector(&self, center: &WorldVector, width: u32, height: u32) -> (r: WorldVoxel)
        ensures
            r.x == world_coord(self.x as int, center.x as int, width as int),
            r.y == world_coord(self.y as int, center.y as int, width as int),
            r.z == world_coord(self.z as int, center.z as int, height as int),
            r == self.world_of(*center, width, height),
    {
        let x = world_coord_exec(self.x, center.x, width);
        let y = world_coord_exec(self.y, center.y, width);
        let z = world_coord_exec(self.z, center.z, height);
        WorldVoxel { x, y, z }
    }
}

/// The world position of a voxel center, in whole grid units.
#[derive(Clone, Copy, Debug, PartialEq, Eq, Structural)]
pub struct WorldVoxel {
    pub x: i64,
    pub y: i64,
    pub z: i64,
}

impl WorldVoxel {
    pub fn new(x: i64, y: i64, z: i64) -> (r: Self)
        ensures
            r == (WorldVoxel { x, y, z }),
    {
        WorldVoxel { x, y, z }
    }

    /// The voxel center in fixed-point steps.
    pub open spec fn center_steps(self) -> Coords {
        (self.x * UNIT, self.y * UNIT, self.z * UNIT)
    }
}

/// An axis-aligned box of world space.
#[derive(Clone, Copy, Debug, PartialEq, Eq, Structural)]
pub struct BoundingBox {
    pub min: WorldVector,
    pub max: WorldVector,
}

/// The midpoint of two coordinates, rounded down to a whole step.
pub open spec fn midpoint(a: int, b: int) -> int {
    (a + b) / 2
}

fn midpoint_exec(a: i64, b: i64) -> (r: i64)
    ensures
        r == midpoint(a as int, b as int),
{
    let sum = a as i128 + b as i128;
    if sum >= 0 {
        (sum / 2) as i64
    } else {
        -((-sum + 1) / 2) as i64
    }
}

impl BoundingBox {
    pub fn new(min: WorldVector, max: WorldVector) -> (r: Self)
        ensures
            r == (BoundingBox { min, max }),
    {
        BoundingBox { min, max }
    }

    /// The middle of the box, each coordinate rounded down to a whole step.
    pub fn center(&self) -> (r: WorldVector)
        ensures
            r.x == midpoint(self.min.x as int, self.max.x as int),
            r.y == midpoint(self.min.y as int, self.max.y as int),
            r.z == midpoint(self.min.z as int, self.max.z as int),
    {
        WorldVector {
            x: midpoint_exec(self.min.x, self.max.x),
            y: midpoint_exec(self.min.y, self.max.y),
            z: midpoint_exec(self.min.z, self.max.z),
        }
    }

    /// The larger of the box's X and Y extents.
    pub fn width(&self) -> (r: i64)
        requires
            i64::MIN <= self.max.x - self.min.x <= i64::MAX,
            i64::MIN <= self.max.y - self.min.y <= i64::MAX,
        ensures
            r == if self.max.x - self.min.x >= self.max.y - self.min.y {
                self.max.x - self.min.x
            } else {
                self.max.y - self.min.y
            },
    {
        let width_x = self.max.x - self.min.x;
        let width_y = self.max.y - self.min.y;
        if width_x >= width_y {
            width_x
        } else {
            width_y
        }
    }

    /// The box's Z extent.
    pub fn height(&self) -> (r: i64)
        requires
            i64::MIN <= self.max.z - self.min.z <= i64::MAX,
        ensures
            r == self.max.z - self.min.z,
    {
        self.max.z - self.min.z
    }
}

fn min3_i64(a: i64, b: i64, c: i64) -> (r: i64)
    ensures
        r == min3(a as int, b as int, c as int),
{
    if a <= b && a <= c {
        a
    } else if b <= c {
        b
    } else {
        c
    }
}

fn max3_i64(a: i64, b: i64, c: i64) -> (r: i64)
    ensures
        r == max3(a as int, b as int, c as int),
{
    if a >= b && a >= c {
        a
    } else if b >= c {
        b
    } else {
        c
    }
}

/// One coordinate multiplied by a fixed-point factor, rounded to a whole step.
pub open spec fn scaled(coord: int, factor: int) -> int {
    rounded_units(coord * factor)
}

fn scaled_exec(coord: i64, factor: i64) -> (r: i64)
    requires
        i64::MIN <= scaled(coord as int, factor as int) <= i64::MAX,
    ensures
        r == scaled(coord as int, factor as int),
{
    proof {
        crate::intersect::lemma_mul_bound(
            coord as int,
            factor as int,
            0x8000_0000_0000_0000int,
            0x8000_0000_0000_0000int,
        );
    }
    round_units(coord as i128 * factor as i128) as i64
}

/// A triangle of world space.
#[derive(Clone, Copy, Debug, PartialEq, Eq, Structural)]
pub struct Triangle {
    pub a: WorldVector,
    pub b: WorldVector,
    pub c: WorldVector,
}

/// The face normal is orthogonal to the triangle: every vertex has the
/// same projection onto it.
pub proof fn lemma_normal_projection(v0: Coords, v1: Coords, v2: Coords)
    ensures
        dot3(cross3(sub3(v1, v0), sub3(v2, v1)), v1) == dot3(cross3(sub3(v1, v0), sub3(v2, v1)), v0),
        dot3(cross3(sub3(v1, v0), sub3(v2, v1)), v2) == dot3(cross3(sub3(v1, v0), sub3(v2, v1)), v0),
{
    let e = sub3(v1, v0);
    let f = sub3(v2, v1);
    let n = cross3(e, f);
    let (e0, e1, e2) = e;
    let (f0, f1, f2) = f;
    assert((e1 * f2 - e2 * f1) * e0 + (e2 * f0 - e0 * f2) * e1 + (e0 * f1 - e1 * f0) * e2 == 0)
        by (nonlinear_arith);
    assert((e1 * f2 - e2 * f1) * f0 + (e2 * f0 - e0 * f2) * f1 + (e0 * f1 - e1 * f0) * f2 == 0)
        by (nonlinear_arith);
    let (n0, n1, n2) = n;
    let (a0, a1, a2) = v0;
    let (b0, b1, b2) = v1;
    let (c0, c1, c2) = v2;
    assert(n0 * b0 + n1 * b1 + n2 * b2 == n0 * a0 + n1 * a1 + n2 * a2 + (n0 * e0 + n1 * e1 + n2
        * e2)) by (nonlinear_arith)
        requires
            b0 == a0 + e0,
            b1 == a1 + e1,
            b2 == a2 + e2,
    ;
    assert(n0 * c0 + n1 * c1 + n2 * c2 == n0 * a0 + n1 * a1 + n2 * a2 + (n0 * e0 + n1 * e1 + n2
        * e2) + (n0 * f0 + n1 * f1 + n2 * f2)) by (nonlinear_arith)
        requires
            c0 == a0 + e0 + f0,
            c1 == a1 + e1 + f1,
            c2 == a2 + e2 + f2,
    ;
}

/// Projections onto the coordinate axes.
pub proof fn lemma_unit_axes(v: Coords, h: int)
    ensures
        dot3(unit_x(), v) == v.0,
        dot3(unit_y(), v) == v.1,
        dot3(unit_z(), v) == v.2,
        radius(unit_x(), h) == h,
        radius(unit_y(), h) == h,
        radius(unit_z(), h) == h,
{
    assert(1 * v.0 + 0 * v.1 + 0 * v.2 == v.0) by (nonlinear_arith);
    assert(0 * v.0 + 1 * v.1 + 0 * v.2 == v.1) by (nonlinear_arith);
    assert(0 * v.0 + 0 * v.1 + 1 * v.2 == v.2) by (nonlinear_arith);
    assert(h * 1 + h * 0 + h * 0 == h) by (nonlinear_arith);
    assert(h * 0 + h * 1 + h * 0 == h) by (nonlinear_arith);
    assert(h * 0 + h * 0 + h * 1 == h) by (nonlinear_arith);
}

/// Sign of the corner coordinate that the plane test picks on one axis.
pub open spec fn corner_coord(n: int, h: int, far: bool) -> int {
    if (n > 0) == far {
        h
    } else {
        -h
    }
}

proof fn lemma_corner_term(n: int, h: int)
    ensures
        n * corner_coord(n, h, false) == -(h * abs(n)),
        n * corner_coord(n, h, true) == h * abs(n),
{
    if n > 0 {
        assert(n * (-h) == -(h * n)) by (nonlinear_arith);
        assert(n * h == h * n) by (nonlinear_arith);
    } else {
        assert(n * h == -(h * (-n))) by (nonlinear_arith);
        assert(n * (-h) == h * (-n)) by (nonlinear_arith);
    }
}

/// The box corners nearest to and farthest along the normal project to
/// minus and plus the box's projection radius.
pub proof fn lemma_plane_corners(n: Coords, h: int, v_min: Coords, v_max: Coords)
    requires
        v_min == (corner_coord(n.0, h, false), corner_coord(n.1, h, false), corner_coord(n.2, h, false)),
        v_max == (corner_coord(n.0, h, true), corner_coord(n.1, h, true), corner_coord(n.2, h, true)),
    ensures
        dot3(n, v_min) == -radius(n, h),
        dot3(n, v_max) == radius(n, h),
{
    lemma_corner_term(n.0, h);
    lemma_corner_term(n.1, h);
    lemma_corner_term(n.2, h);
}

/// The two endpoints of an edge have the same projection onto the
/// product of the edge with any coordinate axis.
pub proof fn lemma_edge_endpoints(p: Coords, q: Coords)
    ensures
        dot3(cross3(sub3(q, p), unit_x()), q) == dot3(cross3(sub3(q, p), unit_x()), p),
        dot3(cross3(sub3(q, p), unit_y()), q) == dot3(cross3(sub3(q, p), unit_y()), p),
        dot3(cross3(sub3(q, p), unit_z()), q) == dot3(cross3(sub3(q, p), unit_z()), p),
{
    let e = sub3(q, p);
    lemma_edge_axis_components(e, p, 0);
    lemma_edge_axis_components(e, q, 0);
    assert(e.2 * q.1 - e.1 * q.2 == e.2 * p.1 - e.1 * p.2) by (nonlinear_arith)
        requires
            e == sub3(q, p),
    ;
    assert((-e.2) * q.0 + e.0 * q.2 == (-e.2) * p.0 + e.0 * p.2) by (nonlinear_arith)
        requires
            e == sub3(q, p),
    ;
    assert(e.1 * q.0 - e.0 * q.1 == e.1 * p.0 - e.0 * p.1) by (nonlinear_arith)
        requires
            e == sub3(q, p),
    ;
}

impl Triangle {
    pub fn new(a: WorldVector, b: WorldVector, c: WorldVector) -> (r: Self)
        ensures
            r == (Triangle { a, b, c }),
    {
        Triangle { a, b, c }
    }

    /// The world box around the triangle, widened by one unit on every side.
    pub open spec fn bounds(self) -> BoundingBox {
        BoundingBox {
            min: WorldVector {
                x: (min3(self.a.x as int, self.b.x as int, self.c.x as int) - UNIT) as i64,
                y: (min3(self.a.y as int, self.b.y as int, self.c.y as int) - UNIT) as i64,
                z: (min3(self.a.z as int, self.b.z as int, self.c.z as int) - UNIT) as i64,
            },
            max: WorldVector {
                x: (max3(self.a.x as int, self.b.x as int, self.c.x as int) + UNIT) as i64,
                y: (max3(self.a.y as int, self.b.y as int, self.c.y as int) + UNIT) as i64,
                z: (max3(self.a.z as int, self.b.z as int, self.c.z as int) + UNIT) as i64,
            },
        }
    }

    /// Every scaled coordinate fits the coordinate type.
    pub open spec fn scalable(self, factor: i64) -> bool {
        forall|k: int|
            0 <= k < 9 ==> i64::MIN <= scaled(#[trigger] self.coord(k), factor as int) <= i64::MAX
    }

    /// The `k`-th of the nine vertex coordinates, vertex by vertex.
    pub open spec fn coord(self, k: int) -> int {
        let v = if k < 3 {
            self.a
        } else if k < 6 {
            self.b
        } else {
            self.c
        };
        if k % 3 == 0 {
            v.x as int
        } else if k % 3 == 1 {
            v.y as int
        } else {
            v.z as int
        }
    }

    /// Scales the triangle about the origin by `scale`, a fixed-point factor
    /// (`UNIT` leaves it unchanged); each coordinate is rounded to a whole step.
    pub fn scale(self, scale: i64) -> (r: Triangle)
        requires
            self.scalable(scale),
        ensures
            forall|k: int| 0 <= k < 9 ==> #[trigger] r.coord(k) == scaled(self.coord(k), scale as int),
    {
        assert(self.coord(0) == self.a.x && self.coord(1) == self.a.y && self.coord(2) == self.a.z);
        assert(self.coord(3) == self.b.x && self.coord(4) == self.b.y && self.coord(5) == self.b.z);
        assert(self.coord(6) == self.c.x && self.coord(7) == self.c.y && self.coord(8) == self.c.z);
        let a = WorldVector::new(
            scaled_exec(self.a.x, scale),
            scaled_exec(self.a.y, scale),
            scaled_exec(self.a.z, scale),
        );
        let b = WorldVector::new(
            scaled_exec(self.b.x, scale),
            scaled_exec(self.b.y, scale),
            scaled_exec(self.b.z, scale),
        );
        let c = WorldVector::new(
            scaled_exec(self.c.x, scale),
            scaled_exec(self.c.y, scale),
            scaled_exec(self.c.z, scale),
        );
        let r = Triangle::new(a, b, c);
        assert forall|k: int| 0 <= k < 9 implies #[trigger] r.coord(k) == scaled(self.coord(k), scale as int) by {
            assert(k == 0 || k == 1 || k == 2 || k == 3 || k == 4 || k == 5 || k == 6 || k == 7 || k == 8);
        }
        r
    }

    /// The triangle's world box, widened by one unit on every side so that
    /// a scan of it covers the voxels next to the extreme vertices.
    pub fn bounding_box(&self) -> (r: BoundingBox)
        requires
            self.wf(),
        ensures
            r == self.bounds(),
    {
        let min_x = min3_i64(self.a.x, self.b.x, self.c.x) - UNIT;
        let min_y = min3_i64(self.a.y, self.b.y, self.c.y) - UNIT;
        let min_z = min3_i64(self.a.z, self.b.z, self.c.z) - UNIT;
        let max_x = max3_i64(self.a.x, self.b.x, self.c.x) + UNIT;
        let max_y = max3_i64(self.a.y, self.b.y, self.c.y) + UNIT;
        let max_z = max3_i64(self.a.z, self.b.z, self.c.z) + UNIT;
        let min = WorldVector::new(min_x, min_y, min_z);
        let max = WorldVector::new(max_x, max_y, max_z);
        BoundingBox::new(min, max)
    }

    /// Whether every vertex coordinate lies within the representable range.
    pub fn is_wf(&self) -> (r: bool)
        ensures
            r == self.wf(),
    {
        let l = COORD_LIMIT;
        -l <= self.a.x && self.a.x <= l && -l <= self.a.y && self.a.y <= l && -l <= self.a.z
            && self.a.z <= l && -l <= self.b.x && self.b.x <= l && -l <= self.b.y && self.b.y <= l
            && -l <= self.b.z && self.b.z <= l && -l <= self.c.x && self.c.x <= l && -l <= self.c.y
            && self.c.y <= l && -l <= self.c.z && self.c.z <= l
    }

    /// Every vertex coordinate lies within the representable range.
    pub open spec fn wf(self) -> bool {
        self.a.within(COORD_LIMIT as int) && self.b.within(COORD_LIMIT as int) && self.c.within(
            COORD_LIMIT as int,
        )
    }

    /// The unit cube centered on `voxel` meets the triangle.
    pub open spec fn overlaps(self, voxel: WorldVoxel) -> bool {
        let c = voxel.center_steps();
        cube_meets_triangle(HALF_UNIT as int, sub3(self.a@, c), sub3(self.b@, c), sub3(self.c@, c))
    }

    /// Decides whether the unit cube centered on `vector` meets the triangle.
    pub fn is_inside(&self, vector: &WorldVoxel) -> (r: bool)
        requires
            self.wf(),
        ensures
            r == self.overlaps(*vector),
    {
        let unit = UNIT as i128;
        let box_center = Vec3i::new(
            vector.x as i128 * unit,
            vector.y as i128 * unit,
            vector.z as i128 * unit,
        );
        let half = HALF_UNIT as i128;
        let box_half_size = Vec3i::new(half, half, half);

        // Move the triangle so that the box is centered around the origin.
        let v0 = self.a.to_vec3i().sub(&box_center);
        let v1 = self.b.to_vec3i().sub(&box_center);
        let v2 = self.c.to_vec3i().sub(&box_center);
        let ghost h = HALF_UNIT as int;
        proof {
            reveal(cube_meets_triangle);
            lemma_unit_axes(v0@, h);
            lemma_unit_axes(v1@, h);
            lemma_unit_axes(v2@, h);
        }
        assert(v0@ == sub3(self.a@, vector.center_steps()));
        assert(v1@ == sub3(self.b@, vector.center_steps()));
        assert(v2@ == sub3(self.c@, vector.center_steps()));

        // 1. Test the box against the minimal box around the triangle.
        if min_max_overlaps(box_half_size.x, v0.x, v1.x, v2.x) {
            assert(separates(unit_x(), h, v0@, v1@, v2@));
            return false;
        }
        if min_max_overlaps(box_half_size.y, v0.y, v1.y, v2.y) {
            assert(separates(unit_y(), h, v0@, v1@, v2@));
            return false;
        }
        if min_max_overlaps(box_half_size.z, v0.z, v1.z, v2.z) {
            assert(separates(unit_z(), h, v0@, v1@, v2@));
            return false;
        }
        assert(!separates(unit_x(), h, v0@, v1@, v2@));
        assert(!separates(unit_y(), h, v0@, v1@, v2@));
        assert(!separates(unit_z(), h, v0@, v1@, v2@));
        assert(bounded(v0@, 0x400_0000_0000));
        assert(bounded(v1@, 0x400_0000_0000));
        assert(bounded(v2@, 0x400_0000_0000));

        // The edges of the triangle.
        let e0 = v1.sub(&v0);
        let e1 = v2.sub(&v1);
        let e2 = v0.sub(&v2);
        assert(bounded(e0@, 0x200_0000_0000));
        assert(bounded(e1@, 0x200_0000_0000));
        assert(bounded(e2@, 0x200_0000_0000));

        // 2. Test whether the box meets the plane of the triangle.
        let normal = e0.cross(&e1);
        let d = -normal.dot(&v0);
        let mut v_min = Vec3i::new(0, 0, 0);
        let mut v_max = Vec3i::new(0, 0, 0);
        if normal.x > 0 {
            v_min.x = v_min.x - box_half_size.x;
            v_max.x = v_max.x + box_half_size.x;
        } else {
            v_min.x = v_min.x + box_half_size.x;
            v_max.x = v_max.x - box_half_size.x;
        }
        if normal.y > 0 {
            v_min.y = v_min.y - box_half_size.y;
            v_max.y = v_max.y + box_half_size.y;
        } else {
            v_min.y = v_min.y + box_half_size.y;
            v_max.y = v_max.y - box_half_size.y;
        }
        if normal.z > 0 {
            v_min.z = v_min.z - box_half_size.z;
            v_max.z = v_max.z + box_half_size.z;
        } else {
            v_min.z = v_min.z + box_half_size.z;
            v_max.z = v_max.z - box_half_size.z;
        }
        proof {
            lemma_normal_projection(v0@, v1@, v2@);
            lemma_plane_corners(normal@, h, v_min@, v_max@);
            assert(dot3(normal@, v_min@) == -radius(normal@, h));
            assert(dot3(normal@, v_max@) == radius(normal@, h));
        }
        if normal.dot(&v_min) + d > 0 {
            assert(separates(normal@, h, v0@, v1@, v2@));
            return false;
        }
        if normal.dot(&v_max) + d < 0 {
            assert(separates(normal@, h, v0@, v1@, v2@));
            return false;
        }
        assert(!separates(normal@, h, v0@, v1@, v2@));

        // 3. Test the products of the edges with the coordinate axes.
        proof {
            lemma_edge_endpoints(v0@, v1@);
            lemma_edge_endpoints(v1@, v2@);
            lemma_edge_endpoints(v2@, v0@);
        }
        if !axis_test_zy(&v0, &v2, &box_half_size, &e0) {
            return false;
        }
        if !axis_test_mzx(&v0, &v2, &box_half_size, &e0) {
            return false;
        }
        if !axis_test_yx(&v1, &v2, &box_half_size, &e0) {
            return false;
        }
        assert(edge_axes_pass(e0@, h, v0@, v1@, v2@));
        if !axis_test_zy(&v0, &v2, &box_half_size, &e1) {
            return false;
        }
        if !axis_test_mzx(&v0, &v2, &box_half_size, &e1) {
            return false;
        }
        if !axis_test_yx(&v0, &v1, &box_half_size, &e1) {
            return false;
        }
        assert(edge_axes_pass(e1@, h, v0@, v1@, v2@));
        if !axis_test_zy(&v0, &v1, &box_half_size, &e2) {
            return false;
        }
        if !axis_test_mzx(&v0, &v1, &box_half_size, &e2) {
            return false;
        }
        if !axis_test_yx(&v1, &v2, &box_half_size, &e2) {
            return false;
        }
        assert(edge_axes_pass(e2@, h, v0@, v1@, v2@));
        true
    }
}

} // verus!
