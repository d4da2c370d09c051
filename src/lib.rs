//! Voxelization of triangulated surfaces into occupancy grids for
//! grid-based pathfinding.
//!
//! World space is fixed-point: a coordinate counts millionths of a grid
//! unit, so that the triangle/voxel test, the coordinate mapping and the
//! scan are exact integer computations.
use vstd::prelude::*;

pub mod fixed;
pub mod geometry;
pub mod intersect;
pub mod laws;
pub mod scan;

use crate::fixed::{round_units, rounded_units, COORD_LIMIT, UNIT, WorldVector};
use crate::geometry::{BoundingBox, LocalVector, Triangle};
use crate::laws::occupancy;
use crate::scan::{find_obstacles, is_scan_of, obstacle_at};

verus! {

/// Coordinate `k` of `v` (0: x, 1: y, 2: z).
pub open spec fn axis(v: WorldVector, k: int) -> int {
    if k == 0 {
        v.x as int
    } else if k == 1 {
        v.y as int
    } else {
        v.z as int
    }
}

/// Least of the widened lower bounds of the triangles on axis `k`, each
/// rounded to whole units; 0 when there is no triangle.
pub open spec fn lowest_units(ts: Seq<Triangle>, k: int) -> int
    decreases ts.len(),
{
    if ts.len() == 0 {
        0
    } else {
        let last = rounded_units(axis(ts.last().bounds().min, k));
        if ts.len() == 1 {
            last
        } else {
            let rest = lowest_units(ts.drop_last(), k);
            if rest <= last {
                rest
            } else {
                last
            }
        }
    }
}

/// Greatest of the widened upper bounds of the triangles on axis `k`, each
/// rounded to whole units; 0 when there is no triangle.
pub open spec fn highest_units(ts: Seq<Triangle>, k: int) -> int
    decreases ts.len(),
{
    if ts.len() == 0 {
        0
    } else {
        let last = rounded_units(axis(ts.last().bounds().max, k));
        if ts.len() == 1 {
            last
        } else {
            let rest = highest_units(ts.drop_last(), k);
            if rest >= last {
                rest
            } else {
                last
            }
        }
    }
}

/// All the triangles are well formed.
pub open spec fn all_wf(ts: Seq<Triangle>) -> bool {
    forall|i: int| 0 <= i < ts.len() ==> #[trigger] ts[i].wf()
}

proof fn lemma_rounded_small(n: int)
    requires
        -(COORD_LIMIT as int) - UNIT <= n <= COORD_LIMIT as int + UNIT,
    ensures
        -0x40_0000 <= rounded_units(n) <= 0x40_0000,
{
    crate::fixed::lemma_rounded_units_error(n);
}

/// Rounds a bound coordinate to whole units.
fn round_bound(n: i64) -> (r: i64)
    requires
        -(COORD_LIMIT as int) - UNIT <= n <= COORD_LIMIT as int + UNIT,
    ensures
        r == rounded_units(n as int),
        -0x40_0000 <= r <= 0x40_0000,
{
    proof {
        lemma_rounded_small(n as int);
    }
    round_units(n as i128) as i64
}

/// The box, in whole units, around the widened bounds of all the
/// triangles; the empty list gives the box of the origin alone.
pub fn bounding_box(triangles: &Vec<Triangle>) -> (r: BoundingBox)
    requires
        all_wf(triangles@),
    ensures
        r.min.x == lowest_units(triangles@, 0) * UNIT,
        r.min.y == lowest_units(triangles@, 1) * UNIT,
        r.min.z == lowest_units(triangles@, 2) * UNIT,
        r.max.x == highest_units(triangles@, 0) * UNIT,
        r.max.y == highest_units(triangles@, 1) * UNIT,
        r.max.z == highest_units(triangles@, 2) * UNIT,
{
    let mut min_x: i64 = 0;
    let mut min_y: i64 = 0;
    let mut min_z: i64 = 0;
    let mut max_x: i64 = 0;
    let mut max_y: i64 = 0;
    let mut max_z: i64 = 0;
    let mut i: usize = 0;
    while i < triangles.len()
        invariant
            i <= triangles.len(),
            all_wf(triangles@),
            min_x == lowest_units(triangles@.take(i as int), 0),
            min_y == lowest_units(triangles@.take(i as int), 1),
            min_z == lowest_units(triangles@.take(i as int), 2),
            max_x == highest_units(triangles@.take(i as int), 0),
            max_y == highest_units(triangles@.take(i as int), 1),
            max_z == highest_units(triangles@.take(i as int), 2),
            -0x40_0000 <= min_x <= 0x40_0000,
            -0x40_0000 <= min_y <= 0x40_0000,
            -0x40_0000 <= min_z <= 0x40_0000,
            -0x40_0000 <= max_x <= 0x40_0000,
            -0x40_0000 <= max_y <= 0x40_0000,
            -0x40_0000 <= max_z <= 0x40_0000,
        decreases triangles.len() - i,
    {
        let ghost prefix = triangles@.take(i as int + 1);
        assert(prefix.drop_last() =~= triangles@.take(i as int));
        assert(prefix.last() == triangles@[i as int]);
        assert(triangles@[i as int].wf());
        let b = triangles[i].bounding_box();
        let lx = round_bound(b.min.x);
        let ly = round_bound(b.min.y);
        let lz = round_bound(b.min.z);
        let hx = round_bound(b.max.x);
        let hy = round_bound(b.max.y);
        let hz = round_bound(b.max.z);
        if i == 0 || lx < min_x {
            min_x = lx;
        }
        if i == 0 || ly < min_y {
            min_y = ly;
        }
        if i == 0 || lz < min_z {
            min_z = lz;
        }
        if i == 0 || hx > max_x {
            max_x = hx;
        }
        if i == 0 || hy > max_y {
            max_y = hy;
        }
        if i == 0 || hz > max_z {
            max_z = hz;
        }
        i += 1;
    }
    assert(triangles@.take(i as int) =~= triangles@);
    let min = WorldVector::new(min_x * UNIT, min_y * UNIT, min_z * UNIT);
    let max = WorldVector::new(max_x * UNIT, max_y * UNIT, max_z * UNIT);
    BoundingBox::new(min, max)
}

/// The triangle that the polygon's three position indices name.
pub open spec fn triangle_of(positions: Seq<WorldVector>, poly: Seq<usize>) -> Triangle {
    Triangle {
        a: positions[poly[0] as int],
        b: positions[poly[1] as int],
        c: positions[poly[2] as int],
    }
}

/// The triangles of the polygons with exactly three vertices, in order.
pub open spec fn triangles_of(positions: Seq<WorldVector>, polys: Seq<Vec<usize>>) -> Seq<Triangle>
    decreases polys.len(),
{
    if polys.len() == 0 {
        Seq::empty()
    } else {
        let rest = triangles_of(positions, polys.drop_last());
        if polys.last()@.len() == 3 {
            rest.push(triangle_of(positions, polys.last()@))
        } else {
            rest
        }
    }
}

/// Every polygon with three vertices names positions that exist.
pub open spec fn indices_valid(positions: Seq<WorldVector>, polys: Seq<Vec<usize>>) -> bool {
    forall|i: int, j: int|
        0 <= i < polys.len() && #[trigger] polys[i]@.len() == 3 && 0 <= j < 3 ==> (#[trigger] polys[i]@[j]) < positions.len()
}

/// Builds the triangles of a mesh from its vertex positions and its
/// polygons, given as lists of position indices; polygons with other than
/// three vertices are skipped.
pub fn parse_triangles(positions: &Vec<WorldVector>, polygons: &Vec<Vec<usize>>) -> (r: Vec<Triangle>)
    requires
        indices_valid(positions@, polygons@),
    ensures
        r@ == triangles_of(positions@, polygons@),
{
    let mut triangles: Vec<Triangle> = Vec::new();
    let mut i: usize = 0;
    while i < polygons.len()
        invariant
            i <= polygons.len(),
            indices_valid(positions@, polygons@),
            triangles@ == triangles_of(positions@, polygons@.take(i as int)),
        decreases polygons.len() - i,
    {
        let ghost prefix = polygons@.take(i as int + 1);
        assert(prefix.drop_last() =~= polygons@.take(i as int));
        assert(prefix.last() == polygons@[i as int]);
        let indices = &polygons[i];
        if indices.len() == 3 {
            assert(polygons@[i as int]@.len() == 3);
            assert(indices@[0] < positions.len());
            assert(indices@[1] < positions.len());
            assert(indices@[2] < positions.len());
            let a = positions[indices[0]];
            let b = positions[indices[1]];
            let c = positions[indices[2]];
            triangles.push(Triangle::new(a, b, c));
        }
        i += 1;
    }
    assert(polygons@.take(i as int) =~= polygons@);
    triangles
}

/// Share of `done` out of `total`, in hundredths of a percent, rounded down.
pub open spec fn progress_hundredths(done: int, total: int) -> int {
    done * 10000 / total
}

/// Progress of a conversion, in hundredths of a percent: monotone in the
/// number of triangles processed, and exactly 100% once all are.
pub fn percent_hundredths(done: usize, total: usize) -> (r: u64)
    requires
        0 < total,
        done <= total,
    ensures
        r == progress_hundredths(done as int, total as int),
        r <= 10000,
        done == total ==> r == 10000,
{
    proof {
        vstd::arithmetic::div_mod::lemma_div_is_ordered(done * 10000, total * 10000, total as int);
        vstd::arithmetic::div_mod::lemma_div_multiples_vanish(10000, total as int);
        vstd::arithmetic::mul::lemma_mul_inequality(done as int, total as int, 10000);
    }
    ((done as u128 * 10000) / total as u128) as u64
}

/// The progress reported after more triangles is never smaller.
pub proof fn lemma_progress_monotone(done1: int, done2: int, total: int)
    requires
        0 <= done1 <= done2 <= total,
        0 < total,
    ensures
        progress_hundredths(done1, total) <= progress_hundredths(done2, total),
{
    vstd::arithmetic::mul::lemma_mul_inequality(done1, done2, 10000);
    vstd::arithmetic::div_mod::lemma_div_is_ordered(done1 * 10000, done2 * 10000, total);
}

/// A sink for the progress of a conversion.
pub trait Progress {
    /// Receives the share of triangles processed so far, in hundredths of a
    /// percent (10000 once all are).
    fn update_progress(&self, percent_hundredths: u64);
}

/// A step run on each triangle before it is scanned: it hands back the
/// triangle to scan, possibly transformed, or `None` to skip it.
pub trait Preprocessor {
    /// The answer of the preprocessor for the triangle, for a grid of the
    /// given width and height around `center`.
    spec fn processed(&self, triangle: Triangle, width: u32, height: u32, center: WorldVector) -> Option<
        Triangle,
    >;

    fn pre_process(&self, triangle: Triangle, width: u32, height: u32, center: WorldVector) -> (r:
        Option<Triangle>)
        ensures
            r == self.processed(triangle, width, height, center),
    ;
}

/// The preprocessor that hands every triangle back unchanged.
pub struct NoOpPreprocessor {}

impl Preprocessor for NoOpPreprocessor {
    open spec fn processed(
        &self,
        triangle: Triangle,
        width: u32,
        height: u32,
        center: WorldVector,
    ) -> Option<Triangle> {
        Some(triangle)
    }

    fn pre_process(&self, triangle: Triangle, width: u32, height: u32, center: WorldVector) -> (r:
        Option<Triangle>) {
        Some(triangle)
    }
}

/// The voxels that the scan of a triangle handed back by the preprocessor
/// reports: none for a skipped triangle or one outside the representable
/// range.
pub open spec fn part_cells(
    processed: Option<Triangle>,
    center: WorldVector,
    width: u32,
    height: u32,
) -> Set<LocalVector> {
    match processed {
        Some(t) => if t.wf() {
            Set::new(|p: LocalVector| obstacle_at(t, center, width, height, p))
        } else {
            Set::empty()
        },
        None => Set::empty(),
    }
}

/// The voxels that converting the triangles sets in the grid: the union of
/// the scans of what the preprocessor hands back for each triangle.
pub open spec fn converted_cells<Pre: Preprocessor>(
    preprocessor: Pre,
    triangles: Seq<Triangle>,
    center: WorldVector,
    width: u32,
    height: u32,
) -> Set<LocalVector> {
    Set::new(
        |p: LocalVector|
            exists|k: int|
                0 <= k < triangles.len() && #[trigger] part_cells(
                    preprocessor.processed(triangles[k], width, height, center),
                    center,
                    width,
                    height,
                ).contains(p),
    )
}

proof fn lemma_part_contains(
    part: Seq<LocalVector>,
    processed: Option<Triangle>,
    center: WorldVector,
    width: u32,
    height: u32,
    p: LocalVector,
)
    requires
        is_part_of(part, processed, center, width, height),
    ensures
        part.contains(p) <==> part_cells(processed, center, width, height).contains(p),
{
    if part.contains(p) {
        let i = choose|i: int| 0 <= i < part.len() && part[i] == p;
        assert(part_cells(processed, center, width, height).contains(part[i]));
    }
}

proof fn lemma_concat_contains(a: Seq<LocalVector>, b: Seq<LocalVector>, p: LocalVector)
    ensures
        (a + b).contains(p) <==> (a.contains(p) || b.contains(p)),
{
    if (a + b).contains(p) {
        let i = choose|i: int| 0 <= i < (a + b).len() && (a + b)[i] == p;
        if i < a.len() {
            assert(a[i] == p);
        } else {
            assert(b[i - a.len()] == p);
        }
    }
    if a.contains(p) {
        let i = choose|i: int| 0 <= i < a.len() && a[i] == p;
        assert((a + b)[i] == p);
    }
    if b.contains(p) {
        let i = choose|i: int| 0 <= i < b.len() && b[i] == p;
        assert((a + b)[a.len() + i] == p);
    }
}

/// `part` is what a triangle handed back by the preprocessor adds: the
/// scan of the triangle when there is one in the representable range,
/// nothing otherwise.
pub open spec fn is_part_of(
    part: Seq<LocalVector>,
    processed: Option<Triangle>,
    center: WorldVector,
    width: u32,
    height: u32,
) -> bool {
    match processed {
        Some(t) => if t.wf() {
            is_scan_of(part, t, center, width, height)
        } else {
            part.len() == 0
        },
        None => part.len() == 0,
    }
}

/// The obstacle voxels of one triangle handed back by the preprocessor.
pub fn obstacles_of(processed: Option<Triangle>, center: &WorldVector, width: u32, height: u32) -> (r:
    Vec<LocalVector>)
    ensures
        is_part_of(r@, processed, *center, width, height),
{
    match processed {
        Some(t) => if t.is_wf() {
            find_obstacles(&t, center, width, height)
        } else {
            Vec::new()
        },
        None => Vec::new(),
    }
}

/// Scans every triangle, in order, after the preprocessor, and reports the
/// progress after each one; returns the obstacle voxels found, triangle by
/// triangle, to be set in the grid. A triangle that the preprocessor skips,
/// or hands back outside the representable range, adds none.
pub fn convert<Prg: Progress, Pre: Preprocessor>(
    triangles: Vec<Triangle>,
    center: WorldVector,
    width: u32,
    height: u32,
    progress: Prg,
    preprocessor: Pre,
) -> (r: Vec<LocalVector>)
    ensures
        exists|parts: Seq<Seq<LocalVector>>|
            {
                &&& parts.len() == triangles.len()
                &&& r@ == parts.flatten()
                &&& forall|k: int|
                    0 <= k < parts.len() ==> is_part_of(
                        #[trigger] parts[k],
                        preprocessor.processed(triangles@[k], width, height, center),
                        center,
                        width,
                        height,
                    )
            },
        occupancy(r@) == converted_cells(preprocessor, triangles@, center, width, height),
{
    let mut obstacles: Vec<LocalVector> = Vec::new();
    let length = triangles.len();
    let mut current: usize = 0;
    let ghost mut parts: Seq<Seq<LocalVector>> = Seq::empty();
    while current < length
        invariant
            length == triangles.len(),
            current <= length,
            parts.len() == current,
            obstacles@ == parts.flatten(),
            forall|k: int|
                0 <= k < parts.len() ==> is_part_of(
                    #[trigger] parts[k],
                    preprocessor.processed(triangles@[k], width, height, center),
                    center,
                    width,
                    height,
                ),
            forall|p: LocalVector|
                obstacles@.contains(p) <==> exists|k: int|
                    0 <= k < current && #[trigger] part_cells(
                        preprocessor.processed(triangles@[k], width, height, center),
                        center,
                        width,
                        height,
                    ).contains(p),
        decreases length - current,
    {
        let triangle = triangles[current];
        let processed_triangle_opt = preprocessor.pre_process(triangle, width, height, center);
        let ghost before = obstacles@;
        let mut found = obstacles_of(processed_triangle_opt, &center, width, height);
        let ghost part = found@;
        obstacles.append(&mut found);
        proof {
            parts.lemma_flatten_push(part);
            assert(obstacles@ =~= before + part);
            parts = parts.push(part);
            assert forall|k: int| 0 <= k < parts.len() implies is_part_of(
                #[trigger] parts[k],
                preprocessor.processed(triangles@[k], width, height, center),
                center,
                width,
                height,
            ) by {
                if k < parts.len() - 1 {
                    assert(parts[k] == parts.drop_last()[k]);
                }
            }
            let ghost cur = current as int;
            assert forall|p: LocalVector|
                obstacles@.contains(p) <==> exists|k: int|
                    0 <= k < cur + 1 && #[trigger] part_cells(
                        preprocessor.processed(triangles@[k], width, height, center),
                        center,
                        width,
                        height,
                    ).contains(p) by {
                lemma_concat_contains(before, part, p);
                lemma_part_contains(part, processed_triangle_opt, center, width, height, p);
                if exists|k: int|
                    0 <= k < cur + 1 && #[trigger] part_cells(
                        preprocessor.processed(triangles@[k], width, height, center),
                        center,
                        width,
                        height,
                    ).contains(p) {
                    let k = choose|k: int|
                        0 <= k < cur + 1 && #[trigger] part_cells(
                            preprocessor.processed(triangles@[k], width, height, center),
                            center,
                            width,
                            height,
                        ).contains(p);
                    if k == cur {
                        assert(triangles@[k] == triangle);
                    }
                }
                if part.contains(p) {
                    assert(part_cells(
                        preprocessor.processed(triangles@[cur], width, height, center),
                        center,
                        width,
                        height,
                    ).contains(p));
                }
            }
        }
        current += 1;
        let percent = percent_hundredths(current, length);
        progress.update_progress(percent);
    }
    proof {
        assert(occupancy(obstacles@) =~= converted_cells(preprocessor, triangles@, center, width, height));
    }
    obstacles
}

} // verus!
