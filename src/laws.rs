//! Properties of the overlap test, the coordinate mapping and the grid writes.
use crate::fixed::{
    lemma_rounded_units_error, lemma_rounded_units_exact, lemma_rounded_units_monotone,
    rounded_units, HALF_UNIT, UNIT, WorldVector,
};
use crate::geometry::{
    lemma_unit_axes, local_coord, world_coord, LocalVector, Triangle, WorldVoxel,
};
use crate::intersect::{
    abs, cross3, cube_meets_triangle, dot3, edge_axes_pass, lemma_edge_axis_components, neg3,
    radius, separates, sub3, unit_x, unit_y, unit_z, Coords,
};
use crate::{converted_cells, part_cells, Preprocessor};
use vstd::prelude::*;

verus! {

/// Separation along an axis does not depend on the order of the points.
proof fn lemma_separates_reorder(axis: Coords, h: int, v0: Coords, v1: Coords, v2: Coords)
    ensures
        separates(axis, h, v1, v0, v2) == separates(axis, h, v0, v1, v2),
        separates(axis, h, v1, v2, v0) == separates(axis, h, v0, v1, v2),
{
}

/// Separation along an axis does not depend on the axis's direction.
proof fn lemma_separates_flip(axis: Coords, h: int, v0: Coords, v1: Coords, v2: Coords)
    ensures
        separates(neg3(axis), h, v0, v1, v2) == separates(axis, h, v0, v1, v2),
{
    assert forall|v: Coords| #[trigger] dot3(neg3(axis), v) == -dot3(axis, v) by {
        assert((-axis.0) * v.0 + (-axis.1) * v.1 + (-axis.2) * v.2 == -(axis.0 * v.0 + axis.1 * v.1
            + axis.2 * v.2)) by (nonlinear_arith);
    }
    assert(radius(neg3(axis), h) == radius(axis, h));
    assert(dot3(neg3(axis), v0) == -dot3(axis, v0));
    assert(dot3(neg3(axis), v1) == -dot3(axis, v1));
    assert(dot3(neg3(axis), v2) == -dot3(axis, v2));
}

/// Reversing an edge reverses its products with the coordinate axes, and
/// so leaves their separation tests unchanged.
proof fn lemma_edge_axes_flip(e: Coords, h: int, v0: Coords, v1: Coords, v2: Coords)
    ensures
        edge_axes_pass(neg3(e), h, v0, v1, v2) == edge_axes_pass(e, h, v0, v1, v2),
{
    lemma_edge_axis_components(e, v0, h);
    lemma_edge_axis_components(neg3(e), v0, h);
    assert(cross3(neg3(e), unit_x()) == neg3(cross3(e, unit_x())));
    assert(cross3(neg3(e), unit_y()) == neg3(cross3(e, unit_y())));
    assert(cross3(neg3(e), unit_z()) == neg3(cross3(e, unit_z())));
    lemma_separates_flip(cross3(e, unit_x()), h, v0, v1, v2);
    lemma_separates_flip(cross3(e, unit_y()), h, v0, v1, v2);
    lemma_separates_flip(cross3(e, unit_z()), h, v0, v1, v2);
}

/// The edge order of the face normal: for edges closing a triangle, the
/// normal from the second and third edge is the normal from the first and
/// second; and the normal from the reversed first and third edge is its
/// opposite.
proof fn lemma_normal_identities(e0: Coords, e1: Coords, e2: Coords)
    requires
        e2 == neg3((e0.0 + e1.0, e0.1 + e1.1, e0.2 + e1.2)),
    ensures
        cross3(e1, e2) == cross3(e0, e1),
        cross3(neg3(e0), neg3(e2)) == neg3(cross3(e0, e1)),
{
    let (a0, a1, a2) = e0;
    let (b0, b1, b2) = e1;
    let (c0, c1, c2) = e2;
    assert(b1 * c2 - b2 * c1 == a1 * b2 - a2 * b1 && b2 * c0 - b0 * c2 == a2 * b0 - a0 * b2 && b0
        * c1 - b1 * c0 == a0 * b1 - a1 * b0) by (nonlinear_arith)
        requires
            c0 == -(a0 + b0),
            c1 == -(a1 + b1),
            c2 == -(a2 + b2),
    ;
    assert((-a1) * (-c2) - (-a2) * (-c1) == -(a1 * b2 - a2 * b1) && (-a2) * (-c0) - (-a0) * (-c2)
        == -(a2 * b0 - a0 * b2) && (-a0) * (-c1) - (-a1) * (-c0) == -(a0 * b1 - a1 * b0))
        by (nonlinear_arith)
        requires
            c0 == -(a0 + b0),
            c1 == -(a1 + b1),
            c2 == -(a2 + b2),
    ;
}

/// Exchanging the first two vertices does not change whether the cube
/// meets the triangle.
proof fn lemma_cube_meets_swap(h: int, v0: Coords, v1: Coords, v2: Coords)
    ensures
        cube_meets_triangle(h, v1, v0, v2) == cube_meets_triangle(h, v0, v1, v2),
{
    reveal(cube_meets_triangle);
    let e0 = sub3(v1, v0);
    let e1 = sub3(v2, v1);
    let e2 = sub3(v0, v2);
    assert(sub3(v0, v1) == neg3(e0));
    assert(sub3(v2, v0) == neg3(e2));
    assert(sub3(v1, v2) == neg3(e1));
    lemma_normal_identities(e0, e1, e2);
    lemma_separates_reorder(unit_x(), h, v0, v1, v2);
    lemma_separates_reorder(unit_y(), h, v0, v1, v2);
    lemma_separates_reorder(unit_z(), h, v0, v1, v2);
    let n = cross3(e0, e1);
    lemma_separates_reorder(neg3(n), h, v0, v1, v2);
    lemma_separates_flip(n, h, v0, v1, v2);
    lemma_edge_axes_flip(e0, h, v0, v1, v2);
    lemma_edge_axes_flip(e1, h, v0, v1, v2);
    lemma_edge_axes_flip(e2, h, v0, v1, v2);
    lemma_edge_axes_reorder(neg3(e0), h, v0, v1, v2);
    lemma_edge_axes_reorder(neg3(e1), h, v0, v1, v2);
    lemma_edge_axes_reorder(neg3(e2), h, v0, v1, v2);
}

proof fn lemma_edge_axes_reorder(e: Coords, h: int, v0: Coords, v1: Coords, v2: Coords)
    ensures
        edge_axes_pass(e, h, v1, v0, v2) == edge_axes_pass(e, h, v0, v1, v2),
        edge_axes_pass(e, h, v1, v2, v0) == edge_axes_pass(e, h, v0, v1, v2),
{
    lemma_separates_reorder(cross3(e, unit_x()), h, v0, v1, v2);
    lemma_separates_reorder(cross3(e, unit_y()), h, v0, v1, v2);
    lemma_separates_reorder(cross3(e, unit_z()), h, v0, v1, v2);
}

/// Rotating the vertices does not change whether the cube meets the triangle.
proof fn lemma_cube_meets_rotate(h: int, v0: Coords, v1: Coords, v2: Coords)
    ensures
        cube_meets_triangle(h, v1, v2, v0) == cube_meets_triangle(h, v0, v1, v2),
{
    reveal(cube_meets_triangle);
    let e0 = sub3(v1, v0);
    let e1 = sub3(v2, v1);
    let e2 = sub3(v0, v2);
    lemma_normal_identities(e0, e1, e2);
    lemma_separates_reorder(unit_x(), h, v0, v1, v2);
    lemma_separates_reorder(unit_y(), h, v0, v1, v2);
    lemma_separates_reorder(unit_z(), h, v0, v1, v2);
    lemma_separates_reorder(cross3(e0, e1), h, v0, v1, v2);
    lemma_edge_axes_reorder(e0, h, v0, v1, v2);
    lemma_edge_axes_reorder(e1, h, v0, v1, v2);
    lemma_edge_axes_reorder(e2, h, v0, v1, v2);
}

/// Whether a voxel meets a triangle does not depend on the order of the
/// triangle's vertices: all six orders give the same answer.
pub proof fn lemma_is_inside_symmetric(t: Triangle, voxel: WorldVoxel)
    ensures
        (Triangle { a: t.b, b: t.a, c: t.c }).overlaps(voxel) == t.overlaps(voxel),
        (Triangle { a: t.b, b: t.c, c: t.a }).overlaps(voxel) == t.overlaps(voxel),
        (Triangle { a: t.c, b: t.a, c: t.b }).overlaps(voxel) == t.overlaps(voxel),
        (Triangle { a: t.a, b: t.c, c: t.b }).overlaps(voxel) == t.overlaps(voxel),
        (Triangle { a: t.c, b: t.b, c: t.a }).overlaps(voxel) == t.overlaps(voxel),
{
    let c = voxel.center_steps();
    let h = HALF_UNIT as int;
    let va = sub3(t.a@, c);
    let vb = sub3(t.b@, c);
    let vc = sub3(t.c@, c);
    lemma_cube_meets_swap(h, va, vb, vc);
    lemma_cube_meets_rotate(h, va, vb, vc);
    lemma_cube_meets_rotate(h, vb, vc, va);
    lemma_cube_meets_swap(h, vc, va, vb);
    lemma_cube_meets_swap(h, vb, vc, va);
}

proof fn lemma_weighted_projection(a0: int, a1: int, a2: int, w: int, x: int, y: int, z: int)
    ensures
        w * (a0 * x + a1 * y + a2 * z) == a0 * (w * x) + a1 * (w * y) + a2 * (w * z),
{
    lemma_scale_term(w, a0, x);
    lemma_scale_term(w, a1, y);
    lemma_scale_term(w, a2, z);
    vstd::arithmetic::mul::lemma_mul_is_distributive_add(w, a0 * x + a1 * y, a2 * z);
    vstd::arithmetic::mul::lemma_mul_is_distributive_add(w, a0 * x, a1 * y);
}

proof fn lemma_scale_term(w: int, a: int, x: int)
    ensures
        w * (a * x) == a * (w * x),
{
    vstd::arithmetic::mul::lemma_mul_is_associative(w, a, x);
    vstd::arithmetic::mul::lemma_mul_is_commutative(w, a);
    vstd::arithmetic::mul::lemma_mul_is_associative(a, w, x);
}

proof fn lemma_distribute(a: int, x: int, y: int, z: int)
    ensures
        a * x + a * y + a * z == a * (x + y + z),
{
    assert(a * x + a * y + a * z == a * (x + y + z)) by (nonlinear_arith);
}

/// An axis cannot separate three points from the cube when a combination
/// of them with nonnegative weights, not all zero, is the origin.
proof fn lemma_combination_not_separated(
    axis: Coords,
    h: int,
    v0: Coords,
    v1: Coords,
    v2: Coords,
    w0: int,
    w1: int,
    w2: int,
)
    requires
        h >= 0,
        w0 >= 0 && w1 >= 0 && w2 >= 0,
        w0 + w1 + w2 > 0,
        w0 * v0.0 + w1 * v1.0 + w2 * v2.0 == 0,
        w0 * v0.1 + w1 * v1.1 + w2 * v2.1 == 0,
        w0 * v0.2 + w1 * v1.2 + w2 * v2.2 == 0,
    ensures
        !separates(axis, h, v0, v1, v2),
{
    let p0 = dot3(axis, v0);
    let p1 = dot3(axis, v1);
    let p2 = dot3(axis, v2);
    let (a0, a1, a2) = axis;
    lemma_weighted_projection(a0, a1, a2, w0, v0.0, v0.1, v0.2);
    lemma_weighted_projection(a0, a1, a2, w1, v1.0, v1.1, v1.2);
    lemma_weighted_projection(a0, a1, a2, w2, v2.0, v2.1, v2.2);
    lemma_distribute(a0, w0 * v0.0, w1 * v1.0, w2 * v2.0);
    lemma_distribute(a1, w0 * v0.1, w1 * v1.1, w2 * v2.1);
    lemma_distribute(a2, w0 * v0.2, w1 * v1.2, w2 * v2.2);
    assert(a0 * 0 + a1 * 0 + a2 * 0 == 0) by (nonlinear_arith);
    assert(w0 * p0 + w1 * p1 + w2 * p2 == 0);
    assert(!(p0 > 0 && p1 > 0 && p2 > 0)) by (nonlinear_arith)
        requires
            w0 >= 0 && w1 >= 0 && w2 >= 0,
            w0 + w1 + w2 > 0,
            w0 * p0 + w1 * p1 + w2 * p2 == 0,
    ;
    assert(!(p0 < 0 && p1 < 0 && p2 < 0)) by (nonlinear_arith)
        requires
            w0 >= 0 && w1 >= 0 && w2 >= 0,
            w0 + w1 + w2 > 0,
            w0 * p0 + w1 * p1 + w2 * p2 == 0,
    ;
    assert(radius(axis, h) >= 0) by (nonlinear_arith)
        requires
            h >= 0,
            radius(axis, h) == h * abs(a0) + h * abs(a1) + h * abs(a2),
            abs(a0) >= 0 && abs(a1) >= 0 && abs(a2) >= 0,
    ;
}

/// A voxel whose center lies in the triangle meets it: when the weighted
/// sum of the vertices, with nonnegative weights `w0, w1, w2` not all zero,
/// is `w0 + w1 + w2` times the center, the test is positive.
pub proof fn lemma_center_in_triangle(t: Triangle, voxel: WorldVoxel, w0: int, w1: int, w2: int)
    requires
        w0 >= 0 && w1 >= 0 && w2 >= 0,
        w0 + w1 + w2 > 0,
        w0 * t.a.x + w1 * t.b.x + w2 * t.c.x == (w0 + w1 + w2) * (voxel.x * UNIT),
        w0 * t.a.y + w1 * t.b.y + w2 * t.c.y == (w0 + w1 + w2) * (voxel.y * UNIT),
        w0 * t.a.z + w1 * t.b.z + w2 * t.c.z == (w0 + w1 + w2) * (voxel.z * UNIT),
    ensures
        t.overlaps(voxel),
{
    reveal(cube_meets_triangle);
    let c = voxel.center_steps();
    let h = HALF_UNIT as int;
    let v0 = sub3(t.a@, c);
    let v1 = sub3(t.b@, c);
    let v2 = sub3(t.c@, c);
    assert forall|a: int, b: int, d: int, m: int|
        w0 * a + w1 * b + w2 * d == (w0 + w1 + w2) * m implies #[trigger] (w0 * (a - m) + w1 * (b
        - m) + w2 * (d - m)) == 0 by {
        assert(w0 * (a - m) + w1 * (b - m) + w2 * (d - m) == w0 * a + w1 * b + w2 * d - (w0 + w1
            + w2) * m) by (nonlinear_arith);
    }
    assert(w0 * v0.0 + w1 * v1.0 + w2 * v2.0 == 0) by {
        assert(w0 * (t.a.x - c.0) + w1 * (t.b.x - c.0) + w2 * (t.c.x - c.0) == 0);
    }
    assert(w0 * v0.1 + w1 * v1.1 + w2 * v2.1 == 0) by {
        assert(w0 * (t.a.y - c.1) + w1 * (t.b.y - c.1) + w2 * (t.c.y - c.1) == 0);
    }
    assert(w0 * v0.2 + w1 * v1.2 + w2 * v2.2 == 0) by {
        assert(w0 * (t.a.z - c.2) + w1 * (t.b.z - c.2) + w2 * (t.c.z - c.2) == 0);
    }
    let e0 = sub3(v1, v0);
    let e1 = sub3(v2, v1);
    let e2 = sub3(v0, v2);
    let axes = seq![
        unit_x(),
        unit_y(),
        unit_z(),
        cross3(e0, e1),
        cross3(e0, unit_x()),
        cross3(e0, unit_y()),
        cross3(e0, unit_z()),
        cross3(e1, unit_x()),
        cross3(e1, unit_y()),
        cross3(e1, unit_z()),
        cross3(e2, unit_x()),
        cross3(e2, unit_y()),
        cross3(e2, unit_z()),
    ];
    assert forall|i: int| 0 <= i < axes.len() implies !separates(#[trigger] axes[i], h, v0, v1, v2) by {
        lemma_combination_not_separated(axes[i], h, v0, v1, v2, w0, w1, w2);
    }
    assert(!separates(axes[0], h, v0, v1, v2));
    assert(!separates(axes[1], h, v0, v1, v2));
    assert(!separates(axes[2], h, v0, v1, v2));
    assert(!separates(axes[3], h, v0, v1, v2));
    assert(!separates(axes[4], h, v0, v1, v2));
    assert(!separates(axes[5], h, v0, v1, v2));
    assert(!separates(axes[6], h, v0, v1, v2));
    assert(!separates(axes[7], h, v0, v1, v2));
    assert(!separates(axes[8], h, v0, v1, v2));
    assert(!separates(axes[9], h, v0, v1, v2));
    assert(!separates(axes[10], h, v0, v1, v2));
    assert(!separates(axes[11], h, v0, v1, v2));
    assert(!separates(axes[12], h, v0, v1, v2));
}

/// A voxel whose cube lies apart from the triangle's widened bounds on
/// some axis does not meet the triangle.
pub proof fn lemma_voxel_apart_from_bounds(t: Triangle, voxel: WorldVoxel)
    requires
        t.wf(),
        ({
            let b = t.bounds();
            ||| voxel.x * UNIT + HALF_UNIT < b.min.x
            ||| voxel.x * UNIT - HALF_UNIT > b.max.x
            ||| voxel.y * UNIT + HALF_UNIT < b.min.y
            ||| voxel.y * UNIT - HALF_UNIT > b.max.y
            ||| voxel.z * UNIT + HALF_UNIT < b.min.z
            ||| voxel.z * UNIT - HALF_UNIT > b.max.z
        }),
    ensures
        !t.overlaps(voxel),
{
    reveal(cube_meets_triangle);
    let c = voxel.center_steps();
    let h = HALF_UNIT as int;
    lemma_unit_axes(sub3(t.a@, c), h);
    lemma_unit_axes(sub3(t.b@, c), h);
    lemma_unit_axes(sub3(t.c@, c), h);
}

/// Mapping a world point that lies within the grid's half-extent of the
/// center on every axis to grid coordinates and back lands within one
/// unit of it on every axis.
pub proof fn lemma_round_trip(world: WorldVector, center: WorldVector, width: u32, height: u32)
    requires
        abs(center.x - world.x) <= (width / 2) * UNIT,
        abs(center.y - world.y) <= (width / 2) * UNIT,
        abs(center.z - world.z) <= (height / 2) * UNIT,
    ensures
        ({
            let v = LocalVector::of_world(world, center, width, height).world_of(center, width, height);
            &&& abs(v.x * UNIT - world.x) <= UNIT
            &&& abs(v.y * UNIT - world.y) <= UNIT
            &&& abs(v.z * UNIT - world.z) <= UNIT
        }),
{
    lemma_axis_round_trip(world.x as int, center.x as int, width as int);
    lemma_axis_round_trip(world.y as int, center.y as int, width as int);
    lemma_axis_round_trip(world.z as int, center.z as int, height as int);
}

proof fn lemma_axis_round_trip(world: int, center: int, extent: int)
    requires
        0 <= extent <= u32::MAX,
        i64::MIN <= world <= i64::MAX,
        i64::MIN <= center <= i64::MAX,
        abs(center - world) <= (extent / 2) * UNIT,
    ensures
        local_coord(world, center, extent) == extent / 2 - rounded_units(center - world),
        abs(world_coord(extent / 2 - rounded_units(center - world), center, extent) * UNIT - world)
            <= UNIT,
        i64::MIN <= world_coord(extent / 2 - rounded_units(center - world), center, extent)
            <= i64::MAX,
{
    let hw = extent / 2;
    lemma_rounded_units_exact(hw);
    lemma_rounded_units_exact(-hw);
    lemma_rounded_units_monotone(center - world, hw * UNIT);
    lemma_rounded_units_monotone(-hw * UNIT, center - world);
    assert(-hw * UNIT == (-hw) * UNIT);
    lemma_rounded_units_error(center);
    lemma_rounded_units_error(center - world);
    let r = rounded_units(center - world);
    let rc = rounded_units(center);
    assert(world_coord(hw - r, center, extent) == rc - r);
    assert((rc - r) * UNIT == rc * UNIT - r * UNIT) by (nonlinear_arith);
}

/// The voxels that a list of writes sets in the grid.
pub open spec fn occupancy(writes: Seq<LocalVector>) -> Set<LocalVector> {
    writes.to_set()
}

/// Setting the same voxel twice leaves the grid as setting it once.
pub proof fn lemma_set_obstacle_idempotent(writes: Seq<LocalVector>, v: LocalVector)
    ensures
        occupancy(writes.push(v).push(v)) == occupancy(writes.push(v)),
{
    let once = writes.push(v);
    let twice = once.push(v);
    assert forall|p: LocalVector| twice.contains(p) <==> once.contains(p) by {
        if twice.contains(p) {
            let i = choose|i: int| 0 <= i < twice.len() && twice[i] == p;
            if i == twice.len() - 1 {
                assert(once[once.len() - 1] == p);
            } else {
                assert(once[i] == p);
            }
        }
        if once.contains(p) {
            let i = choose|i: int| 0 <= i < once.len() && once[i] == p;
            assert(twice[i] == p);
        }
    }
    assert(occupancy(twice) =~= occupancy(once));
}

/// Converting two lists that hold the same triangles, in whatever order
/// and with whatever repetitions, sets the same voxels.
pub proof fn lemma_convert_same_triangles<Pre: Preprocessor>(
    preprocessor: Pre,
    triangles: Seq<Triangle>,
    triangles2: Seq<Triangle>,
    center: WorldVector,
    width: u32,
    height: u32,
)
    requires
        forall|t: Triangle| triangles.contains(t) <==> triangles2.contains(t),
    ensures
        converted_cells(preprocessor, triangles, center, width, height) == converted_cells(
            preprocessor,
            triangles2,
            center,
            width,
            height,
        ),
{
    assert forall|ts: Seq<Triangle>, us: Seq<Triangle>, p: LocalVector|
        (forall|t: Triangle| ts.contains(t) ==> us.contains(t)) && converted_cells(
            preprocessor,
            ts,
            center,
            width,
            height,
        ).contains(p) implies #[trigger] converted_cells(
        preprocessor,
        us,
        center,
        width,
        height,
    ).contains(p) && #[trigger] converted_cells(preprocessor, ts, center, width, height).contains(
        p,
    ) by {
        let k = choose|k: int|
            0 <= k < ts.len() && #[trigger] part_cells(
                preprocessor.processed(ts[k], width, height, center),
                center,
                width,
                height,
            ).contains(p);
        assert(ts.contains(ts[k]));
        let j = choose|j: int| 0 <= j < us.len() && us[j] == ts[k];
        assert(part_cells(preprocessor.processed(us[j], width, height, center), center, width, height).contains(p));
    }
    assert(converted_cells(preprocessor, triangles, center, width, height) =~= converted_cells(
        preprocessor,
        triangles2,
        center,
        width,
        height,
    ));
}

/// Adding a copy of a triangle that is already in the list leaves the
/// voxels that converting the list sets unchanged: setting a voxel a
/// second time leaves the grid as setting it once.
pub proof fn lemma_convert_copy<Pre: Preprocessor>(
    preprocessor: Pre,
    triangles: Seq<Triangle>,
    i: int,
    center: WorldVector,
    width: u32,
    height: u32,
)
    requires
        0 <= i < triangles.len(),
    ensures
        converted_cells(preprocessor, triangles.push(triangles[i]), center, width, height)
            == converted_cells(preprocessor, triangles, center, width, height),
{
    let longer = triangles.push(triangles[i]);
    assert forall|t: Triangle| triangles.contains(t) <==> longer.contains(t) by {
        if triangles.contains(t) {
            let j = choose|j: int| 0 <= j < triangles.len() && triangles[j] == t;
            assert(longer[j] == t);
        }
        if longer.contains(t) {
            let j = choose|j: int| 0 <= j < longer.len() && longer[j] == t;
            if j == triangles.len() {
                assert(triangles[i] == t);
            } else {
                assert(triangles[j] == t);
            }
        }
    }
    lemma_convert_same_triangles(preprocessor, longer, triangles, center, width, height);
}

/// Converting the triangles in another order sets the same voxels: the
/// order of the grid writes does not matter.
pub proof fn lemma_convert_permutation<Pre: Preprocessor>(
    preprocessor: Pre,
    triangles: Seq<Triangle>,
    triangles2: Seq<Triangle>,
    center: WorldVector,
    width: u32,
    height: u32,
)
    requires
        triangles2.to_multiset() == triangles.to_multiset(),
    ensures
        converted_cells(preprocessor, triangles2, center, width, height) == converted_cells(
            preprocessor,
            triangles,
            center,
            width,
            height,
        ),
{
    assert forall|t: Triangle| triangles.contains(t) <==> triangles2.contains(t) by {
        vstd::seq_lib::to_multiset_contains(triangles, t);
        vstd::seq_lib::to_multiset_contains(triangles2, t);
    }
    lemma_convert_same_triangles(preprocessor, triangles, triangles2, center, width, height);
}

/// Leaving out a triangle that the preprocessor skips changes nothing in
/// the voxels that converting the list sets.
pub proof fn lemma_convert_skipped<Pre: Preprocessor>(
    preprocessor: Pre,
    triangles: Seq<Triangle>,
    i: int,
    center: WorldVector,
    width: u32,
    height: u32,
)
    requires
        0 <= i < triangles.len(),
        preprocessor.processed(triangles[i], width, height, center) is None,
    ensures
        converted_cells(preprocessor, triangles.remove(i), center, width, height)
            == converted_cells(preprocessor, triangles, center, width, height),
{
    let shorter = triangles.remove(i);
    assert forall|p: LocalVector|
        #[trigger] converted_cells(preprocessor, triangles, center, width, height).contains(p)
            <==> converted_cells(preprocessor, shorter, center, width, height).contains(p) by {
        if converted_cells(preprocessor, triangles, center, width, height).contains(p) {
            let k = choose|k: int|
                0 <= k < triangles.len() && #[trigger] part_cells(
                    preprocessor.processed(triangles[k], width, height, center),
                    center,
                    width,
                    height,
                ).contains(p);
            assert(k != i);
            let j = if k < i {
                k
            } else {
                k - 1
            };
            assert(shorter[j] == triangles[k]);
            assert(part_cells(preprocessor.processed(shorter[j], width, height, center), center, width, height).contains(p));
        }
        if converted_cells(preprocessor, shorter, center, width, height).contains(p) {
            let j = choose|j: int|
                0 <= j < shorter.len() && #[trigger] part_cells(
                    preprocessor.processed(shorter[j], width, height, center),
                    center,
                    width,
                    height,
                ).contains(p);
            let k = if j < i {
                j
            } else {
                j + 1
            };
            assert(shorter[j] == triangles[k]);
            assert(part_cells(preprocessor.processed(triangles[k], width, height, center), center, width, height).contains(p));
        }
    }
    assert(converted_cells(preprocessor, shorter, center, width, height) =~= converted_cells(
        preprocessor,
        triangles,
        center,
        width,
        height,
    ));
}

} // verus!
