//! Overlap of a triangle with an axis-aligned cube centered on the origin,
//! decided by the separating-axis theorem on exact integers.
use vstd::prelude::*;

verus! {

/// A vector of mathematical integers.
pub type Coords = (int, int, int);

pub open spec fn sub3(a: Coords, b: Coords) -> Coords {
    (a.0 - b.0, a.1 - b.1, a.2 - b.2)
}

pub open spec fn neg3(a: Coords) -> Coords {
    (-a.0, -a.1, -a.2)
}

pub open spec fn dot3(a: Coords, b: Coords) -> int {
    a.0 * b.0 + a.1 * b.1 + a.2 * b.2
}

pub open spec fn cross3(a: Coords, b: Coords) -> Coords {
    (a.1 * b.2 - a.2 * b.1, a.2 * b.0 - a.0 * b.2, a.0 * b.1 - a.1 * b.0)
}

pub open spec fn abs(x: int) -> int {
    if x < 0 {
        -x
    } else {
        x
    }
}

pub open spec fn min3(a: int, b: int, c: int) -> int {
    if a <= b && a <= c {
        a
    } else if b <= c {
        b
    } else {
        c
    }
}

pub open spec fn max3(a: int, b: int, c: int) -> int {
    if a >= b && a >= c {
        a
    } else if b >= c {
        b
    } else {
        c
    }
}

pub open spec fn unit_x() -> Coords {
    (1, 0, 0)
}

pub open spec fn unit_y() -> Coords {
    (0, 1, 0)
}

pub open spec fn unit_z() -> Coords {
    (0, 0, 1)
}

/// Every component has magnitude at most `m`.
pub open spec fn bounded(v: Coords, m: int) -> bool {
    -m <= v.0 <= m && -m <= v.1 <= m && -m <= v.2 <= m
}

/// Projection radius onto `axis` of the cube of half-size `h` centered on the origin.
pub open spec fn radius(axis: Coords, h: int) -> int {
    h * abs(axis.0) + h * abs(axis.1) + h * abs(axis.2)
}

/// The projections of the three points onto `axis` all lie beyond the
/// projection of the cube of half-size `h`, on the same side.
pub open spec fn separates(axis: Coords, h: int, v0: Coords, v1: Coords, v2: Coords) -> bool {
    let p0 = dot3(axis, v0);
    let p1 = dot3(axis, v1);
    let p2 = dot3(axis, v2);
    min3(p0, p1, p2) > radius(axis, h) || max3(p0, p1, p2) < -radius(axis, h)
}

/// Edge `e` of the triangle crossed with each coordinate axis gives no separating axis.
pub open spec fn edge_axes_pass(e: Coords, h: int, v0: Coords, v1: Coords, v2: Coords) -> bool {
    &&& !separates(cross3(e, unit_x()), h, v0, v1, v2)
    &&& !separates(cross3(e, unit_y()), h, v0, v1, v2)
    &&& !separates(cross3(e, unit_z()), h, v0, v1, v2)
}

/// The cube of half-size `h` centered on the origin meets the triangle
/// `v0 v1 v2`: none of the thirteen candidate axes of the separating-axis
/// theorem (the three coordinate axes, the face normal, and the nine
/// products of an edge with a coordinate axis) separates them.
#[verifier::opaque]
pub open spec fn cube_meets_triangle(h: int, v0: Coords, v1: Coords, v2: Coords) -> bool {
    let e0 = sub3(v1, v0);
    let e1 = sub3(v2, v1);
    let e2 = sub3(v0, v2);
    &&& !separates(unit_x(), h, v0, v1, v2)
    &&& !separates(unit_y(), h, v0, v1, v2)
    &&& !separates(unit_z(), h, v0, v1, v2)
    &&& !separates(cross3(e0, e1), h, v0, v1, v2)
    &&& edge_axes_pass(e0, h, v0, v1, v2)
    &&& edge_axes_pass(e1, h, v0, v1, v2)
    &&& edge_axes_pass(e2, h, v0, v1, v2)
}

pub proof fn lemma_mul_bound(a: int, b: int, ma: int, mb: int)
    requires
        -ma <= a <= ma,
        -mb <= b <= mb,
    ensures
        -(ma * mb) <= a * b <= ma * mb,
{
    assert(-(ma * mb) <= a * b <= ma * mb) by (nonlinear_arith)
        requires
            -ma <= a <= ma,
            -mb <= b <= mb,
    ;
}

/// An integer vector for the computations of the overlap test.
#[derive(Clone, Copy)]
pub struct Vec3i {
    pub x: i128,
    pub y: i128,
    pub z: i128,
}

impl View for Vec3i {
    type V = Coords;

    open spec fn view(&self) -> Coords {
        (self.x as int, self.y as int, self.z as int)
    }
}

impl Vec3i {
    pub fn new(x: i128, y: i128, z: i128) -> (r: Self)
        ensures
            r@ == (x as int, y as int, z as int),
    {
        Vec3i { x, y, z }
    }

    pub fn sub(&self, o: &Vec3i) -> (r: Vec3i)
        requires
            bounded(self@, 0x1000_0000_0000_0000_0000_0000_0000_0000),
            bounded(o@, 0x1000_0000_0000_0000_0000_0000_0000_0000),
        ensures
            r@ == sub3(self@, o@),
    {
        Vec3i { x: self.x - o.x, y: self.y - o.y, z: self.z - o.z }
    }

    pub fn cross(&self, o: &Vec3i) -> (r: Vec3i)
        requires
            bounded(self@, 0x200_0000_0000),
            bounded(o@, 0x200_0000_0000),
        ensures
            r@ == cross3(self@, o@),
            bounded(r@, 0x8_0000_0000_0000_0000_0000),
    {
        let ghost m: int = 0x200_0000_0000int;
        proof {
            lemma_mul_bound(self.y as int, o.z as int, m, m);
            lemma_mul_bound(self.z as int, o.y as int, m, m);
            lemma_mul_bound(self.z as int, o.x as int, m, m);
            lemma_mul_bound(self.x as int, o.z as int, m, m);
            lemma_mul_bound(self.x as int, o.y as int, m, m);
            lemma_mul_bound(self.y as int, o.x as int, m, m);
        }
        Vec3i {
            x: self.y * o.z - self.z * o.y,
            y: self.z * o.x - self.x * o.z,
            z: self.x * o.y - self.y * o.x,
        }
    }

    pub fn dot(&self, o: &Vec3i) -> (r: i128)
        requires
            bounded(self@, 0x8_0000_0000_0000_0000_0000),
            bounded(o@, 0x400_0000_0000),
        ensures
            r == dot3(self@, o@),
            -0x6000_0000_0000_0000_0000_0000_0000_0000 <= r <= 0x6000_0000_0000_0000_0000_0000_0000_0000,
    {
        let ghost m: int = 0x8_0000_0000_0000_0000_0000int;
        let ghost n: int = 0x400_0000_0000int;
        proof {
            lemma_mul_bound(self.x as int, o.x as int, m, n);
            lemma_mul_bound(self.y as int, o.y as int, m, n);
            lemma_mul_bound(self.z as int, o.z as int, m, n);
        }
        self.x * o.x + self.y * o.y + self.z * o.z
    }
}

fn abs_i128(x: i128) -> (r: i128)
    requires
        x > i128::MIN,
    ensures
        r == abs(x as int),
{
    if x < 0 {
        -x
    } else {
        x
    }
}

/// True when the three values all lie above `box_half_size` or all below
/// its negation: the coordinate axis separates the triangle from the cube.
pub fn min_max_overlaps(box_half_size: i128, v0: i128, v1: i128, v2: i128) -> (r: bool)
    requires
        0 <= box_half_size < 0x1000_0000_0000,
    ensures
        r == (min3(v0 as int, v1 as int, v2 as int) > box_half_size || max3(
            v0 as int,
            v1 as int,
            v2 as int,
        ) < -box_half_size),
{
    let min = if v0 <= v1 && v0 <= v2 {
        v0
    } else if v1 <= v2 {
        v1
    } else {
        v2
    };
    let max = if v0 >= v1 && v0 >= v2 {
        v0
    } else if v1 >= v2 {
        v1
    } else {
        v2
    };
    min > box_half_size || max < -box_half_size
}

/// Projection of a point `(p1, p2)`, given by its two participating
/// coordinates, onto an edge-cross-axis direction `(e1, e2)`.
pub open spec fn edge_projection(e1: int, e2: int, p1: int, p2: int, sign: bool) -> int {
    if sign {
        e1 * p1 + e2 * p2
    } else {
        e1 * p1 - e2 * p2
    }
}

/// True when the projections of two points onto the axis, whose
/// participating components are `edge_axis1` and `edge_axis2`, overlap the
/// projection of the cube: the axis does not separate.
pub fn axis_test(
    edge_axis1: i128,
    edge_axis2: i128,
    point1_axis1: i128,
    point1_axis2: i128,
    point2_axis1: i128,
    point2_axis2: i128,
    box_half_size_axis1: i128,
    box_half_size_axis2: i128,
    sign: bool,
) -> (r: bool)
    requires
        -0x200_0000_0000 <= edge_axis1 <= 0x200_0000_0000,
        -0x200_0000_0000 <= edge_axis2 <= 0x200_0000_0000,
        -0x400_0000_0000 <= point1_axis1 <= 0x400_0000_0000,
        -0x400_0000_0000 <= point1_axis2 <= 0x400_0000_0000,
        -0x400_0000_0000 <= point2_axis1 <= 0x400_0000_0000,
        -0x400_0000_0000 <= point2_axis2 <= 0x400_0000_0000,
        0 <= box_half_size_axis1 <= 0x10_0000,
        0 <= box_half_size_axis2 <= 0x10_0000,
    ensures
        ({
            let p1 = edge_projection(edge_axis1 as int, edge_axis2 as int, point1_axis1 as int, point1_axis2 as int, sign);
            let p2 = edge_projection(edge_axis1 as int, edge_axis2 as int, point2_axis1 as int, point2_axis2 as int, sign);
            let rad = abs(edge_axis1 as int) * box_half_size_axis1 + abs(edge_axis2 as int) * box_half_size_axis2;
            r == !(min3(p1, p2, p2) > rad || max3(p1, p2, p2) < -rad)
        }),
{
    let ghost m: int = 0x200_0000_0000int;
    let ghost n: int = 0x400_0000_0000int;
    proof {
        lemma_mul_bound(edge_axis1 as int, point1_axis1 as int, m, n);
        lemma_mul_bound(edge_axis2 as int, point1_axis2 as int, m, n);
        lemma_mul_bound(edge_axis1 as int, point2_axis1 as int, m, n);
        lemma_mul_bound(edge_axis2 as int, point2_axis2 as int, m, n);
        lemma_mul_bound(abs(edge_axis1 as int), box_half_size_axis1 as int, m, 0x10_0000);
        lemma_mul_bound(abs(edge_axis2 as int), box_half_size_axis2 as int, m, 0x10_0000);
    }
    let p1 = if sign {
        edge_axis1 * point1_axis1 + edge_axis2 * point1_axis2
    } else {
        edge_axis1 * point1_axis1 - edge_axis2 * point1_axis2
    };
    let p2 = if sign {
        edge_axis1 * point2_axis1 + edge_axis2 * point2_axis2
    } else {
        edge_axis1 * point2_axis1 - edge_axis2 * point2_axis2
    };
    let min = if p1 <= p2 {
        p1
    } else {
        p2
    };
    let max = if p1 >= p2 {
        p1
    } else {
        p2
    };
    let radius = abs_i128(edge_axis1) * box_half_size_axis1 + abs_i128(edge_axis2)
        * box_half_size_axis2;
    if min > radius || max < -radius {
        return false;
    }
    true
}

/// The cube's half-size is `h` along every axis.
pub open spec fn uniform_half_size(b: Coords, h: int) -> bool {
    b.0 == h && b.1 == h && b.2 == h && 0 <= h <= 0x10_0000
}

/// The products of an edge with the coordinate axes, and the projections
/// onto them, in components.
pub proof fn lemma_edge_axis_components(e: Coords, p: Coords, h: int)
    ensures
        cross3(e, unit_x()) == (0int, e.2, -e.1),
        cross3(e, unit_y()) == (-e.2, 0int, e.0),
        cross3(e, unit_z()) == (e.1, -e.0, 0int),
        dot3(cross3(e, unit_x()), p) == edge_projection(e.2, e.1, p.1, p.2, false),
        dot3(cross3(e, unit_y()), p) == edge_projection(-e.2, e.0, p.0, p.2, true),
        dot3(cross3(e, unit_z()), p) == edge_projection(e.1, e.0, p.0, p.1, false),
        radius(cross3(e, unit_x()), h) == abs(e.2) * h + abs(e.1) * h,
        radius(cross3(e, unit_y()), h) == abs(-e.2) * h + abs(e.0) * h,
        radius(cross3(e, unit_z()), h) == abs(e.1) * h + abs(e.0) * h,
{
    assert(e.1 * 0 - e.2 * 0 == 0 && e.2 * 1 - e.0 * 0 == e.2 && e.0 * 0 - e.1 * 1 == -e.1)
        by (nonlinear_arith);
    assert(e.1 * 0 - e.2 * 1 == -e.2 && e.2 * 0 - e.0 * 0 == 0 && e.0 * 1 - e.1 * 0 == e.0)
        by (nonlinear_arith);
    assert(e.1 * 1 - e.2 * 0 == e.1 && e.2 * 0 - e.0 * 1 == -e.0 && e.0 * 0 - e.1 * 0 == 0)
        by (nonlinear_arith);
    assert(cross3(e, unit_x()) == (0int, e.2, -e.1));
    assert(cross3(e, unit_y()) == (-e.2, 0int, e.0));
    assert(cross3(e, unit_z()) == (e.1, -e.0, 0int));
    assert(h * abs(0) == 0) by (nonlinear_arith);
    assert(0 * p.0 + e.2 * p.1 + (-e.1) * p.2 == e.2 * p.1 - e.1 * p.2) by (nonlinear_arith);
    assert((-e.2) * p.0 + 0 * p.1 + e.0 * p.2 == (-e.2) * p.0 + e.0 * p.2) by (nonlinear_arith);
    assert(e.1 * p.0 + (-e.0) * p.1 + 0 * p.2 == e.1 * p.0 - e.0 * p.1) by (nonlinear_arith);
    assert((-e.1) * p.2 == -(e.1 * p.2)) by (nonlinear_arith);
    assert((-e.0) * p.1 == -(e.0 * p.1)) by (nonlinear_arith);
    assert(h * abs(e.2) == abs(e.2) * h) by (nonlinear_arith);
    assert(h * abs(e.1) == abs(e.1) * h) by (nonlinear_arith);
    assert(h * abs(e.0) == abs(e.0) * h) by (nonlinear_arith);
    assert(h * abs(-e.2) == abs(-e.2) * h) by (nonlinear_arith);
    assert(h * abs(-e.1) == abs(e.1) * h) by (nonlinear_arith);
    assert(h * abs(-e.0) == abs(e.0) * h) by (nonlinear_arith);
}

/// Separation test on the axis `edge` x (1, 0, 0), from two points.
pub fn axis_test_zy(point1: &Vec3i, point2: &Vec3i, box_half_size: &Vec3i, edge: &Vec3i) -> (r: bool)
    requires
        bounded(edge@, 0x200_0000_0000),
        bounded(point1@, 0x400_0000_0000),
        bounded(point2@, 0x400_0000_0000),
        uniform_half_size(box_half_size@, box_half_size.x as int),
    ensures
        r == !separates(cross3(edge@, unit_x()), box_half_size.x as int, point1@, point2@, point2@),
{
    proof {
        lemma_edge_axis_components(edge@, point1@, box_half_size.x as int);
        lemma_edge_axis_components(edge@, point2@, box_half_size.x as int);
    }
    axis_test(
        edge.z,
        edge.y,
        point1.y,
        point1.z,
        point2.y,
        point2.z,
        box_half_size.y,
        box_half_size.z,
        false,
    )
}

/// Separation test on the axis `edge` x (0, 1, 0), from two points.
pub fn axis_test_mzx(point1: &Vec3i, point2: &Vec3i, box_half_size: &Vec3i, edge: &Vec3i) -> (r: bool)
    requires
        bounded(edge@, 0x200_0000_0000),
        bounded(point1@, 0x400_0000_0000),
        bounded(point2@, 0x400_0000_0000),
        uniform_half_size(box_half_size@, box_half_size.x as int),
    ensures
        r == !separates(cross3(edge@, unit_y()), box_half_size.x as int, point1@, point2@, point2@),
{
    proof {
        lemma_edge_axis_components(edge@, point1@, box_half_size.x as int);
        lemma_edge_axis_components(edge@, point2@, box_half_size.x as int);
    }
    axis_test(
        -edge.z,
        edge.x,
        point1.x,
        point1.z,
        point2.x,
        point2.z,
        box_half_size.x,
        box_half_size.z,
        true,
    )
}

/// Separation test on the axis `edge` x (0, 0, 1), from two points.
pub fn axis_test_yx(point1: &Vec3i, point2: &Vec3i, box_half_size: &Vec3i, edge: &Vec3i) -> (r: bool)
    requires
        bounded(edge@, 0x200_0000_0000),
        bounded(point1@, 0x400_0000_0000),
        bounded(point2@, 0x400_0000_0000),
        uniform_half_size(box_half_size@, box_half_size.x as int),
    ensures
        r == !separates(cross3(edge@, unit_z()), box_half_size.x as int, point1@, point2@, point2@),
{
    proof {
        lemma_edge_axis_components(edge@, point1@, box_half_size.x as int);
        lemma_edge_axis_components(edge@, point2@, box_half_size.x as int);
    }
    axis_test(
        edge.y,
        edge.x,
        point1.x,
        point1.y,
        point2.x,
        point2.y,
        box_half_size.x,
        box_half_size.y,
        false,
    )
}

} // verus!
