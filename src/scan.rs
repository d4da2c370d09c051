//! The voxel scan of one triangle.
use crate::fixed::WorldVector;
use crate::geometry::{LocalVector, Triangle};
use vstd::prelude::*;

verus! {

/// `p` comes before `q` in ascending x, then y, then z order.
pub open spec fn lex_lt(p: LocalVector, q: LocalVector) -> bool {
    p.x < q.x || (p.x == q.x && (p.y < q.y || (p.y == q.y && p.z < q.z)))
}

/// `p` lies in the half-open box `[lo, hi)`.
pub open spec fn in_scan(p: LocalVector, lo: LocalVector, hi: LocalVector) -> bool {
    &&& lo.x <= p.x < hi.x
    &&& lo.y <= p.y < hi.y
    &&& lo.z <= p.z < hi.z
}

/// Lower corner of the local box that the scan of `t` covers.
pub open spec fn scan_lo(t: Triangle, center: WorldVector, width: u32, height: u32) -> LocalVector {
    LocalVector::of_world(t.bounds().min, center, width, height)
}

/// Upper (excluded) corner of the local box that the scan of `t` covers.
pub open spec fn scan_hi(t: Triangle, center: WorldVector, width: u32, height: u32) -> LocalVector {
    LocalVector::of_world(t.bounds().max, center, width, height)
}

/// The scan of `t` reports `p`: `p` lies in the local box of the
/// triangle's widened bounds, and the voxel it stands for meets `t`.
pub open spec fn obstacle_at(
    t: Triangle,
    center: WorldVector,
    width: u32,
    height: u32,
    p: LocalVector,
) -> bool {
    &&& in_scan(p, scan_lo(t, center, width, height), scan_hi(t, center, width, height))
    &&& t.overlaps(p.world_of(center, width, height))
}

/// `s` lists exactly the voxels that the scan of `t` reports, each once,
/// in ascending x, then y, then z order.
pub open spec fn is_scan_of(
    s: Seq<LocalVector>,
    t: Triangle,
    center: WorldVector,
    width: u32,
    height: u32,
) -> bool {
    &&& forall|i: int| 0 <= i < s.len() ==> obstacle_at(t, center, width, height, #[trigger] s[i])
    &&& forall|p: LocalVector| obstacle_at(t, center, width, height, p) ==> s.contains(p)
    &&& forall|i: int, j: int| 0 <= i < j < s.len() ==> lex_lt(#[trigger] s[i], #[trigger] s[j])
}

/// Finds the voxels that the triangle meets, by testing every voxel of the
/// local box that its widened bounds map to.
pub fn find_obstacles(triangle: &Triangle, center: &WorldVector, width: u32, height: u32) -> (r:
    Vec<LocalVector>)
    requires
        triangle.wf(),
    ensures
        is_scan_of(r@, *triangle, *center, width, height),
{
    let bounding_box = triangle.bounding_box();

    // Convert the bounding box to local coordinates.
    let min = LocalVector::from_world_vector(&bounding_box.min, center, width, height);
    let max = LocalVector::from_world_vector(&bounding_box.max, center, width, height);
    let ghost t = *triangle;
    let ghost c = *center;

    let mut obstacles: Vec<LocalVector> = Vec::new();
    let mut x: u32 = min.x;
    while x < max.x
        invariant
            min == scan_lo(t, c, width, height),
            max == scan_hi(t, c, width, height),
            t == *triangle,
            c == *center,
            t.wf(),
            min.x <= x,
            forall|i: int|
                0 <= i < obstacles.len() ==> obstacle_at(t, c, width, height, #[trigger] obstacles@[i])
                    && lex_lt(obstacles@[i], LocalVector { x, y: min.y, z: min.z }),
            forall|i: int, j: int|
                0 <= i < j < obstacles.len() ==> lex_lt(#[trigger] obstacles@[i], #[trigger] obstacles@[j]),
            forall|p: LocalVector|
                obstacle_at(t, c, width, height, p) && p.x < x ==> obstacles@.contains(p),
        decreases max.x - x,
    {
        let mut y: u32 = min.y;
        while y < max.y
            invariant
                min == scan_lo(t, c, width, height),
                max == scan_hi(t, c, width, height),
                t == *triangle,
                c == *center,
                t.wf(),
                min.x <= x < max.x,
                min.y <= y,
                forall|i: int|
                    0 <= i < obstacles.len() ==> obstacle_at(t, c, width, height, #[trigger] obstacles@[i])
                        && lex_lt(obstacles@[i], LocalVector { x, y, z: min.z }),
                forall|i: int, j: int|
                    0 <= i < j < obstacles.len() ==> lex_lt(#[trigger] obstacles@[i], #[trigger] obstacles@[j]),
                forall|p: LocalVector|
                    obstacle_at(t, c, width, height, p) && (p.x < x || (p.x == x && p.y < y))
                        ==> obstacles@.contains(p),
            decreases max.y - y,
        {
            let mut z: u32 = min.z;
            while z < max.z
                invariant
                    min == scan_lo(t, c, width, height),
                    max == scan_hi(t, c, width, height),
                    t == *triangle,
                    c == *center,
                    t.wf(),
                    min.x <= x < max.x,
                    min.y <= y < max.y,
                    min.z <= z,
                    forall|i: int|
                        0 <= i < obstacles.len() ==> obstacle_at(t, c, width, height, #[trigger] obstacles@[i])
                            && lex_lt(obstacles@[i], LocalVector { x, y, z }),
                    forall|i: int, j: int|
                        0 <= i < j < obstacles.len() ==> lex_lt(#[trigger] obstacles@[i], #[trigger] obstacles@[j]),
                    forall|p: LocalVector|
                        obstacle_at(t, c, width, height, p) && lex_lt(p, LocalVector { x, y, z })
                            ==> obstacles@.contains(p),
                decreases max.z - z,
            {
                let local_vector = LocalVector::new(x, y, z);

                // Triangle coordinates are global.
                let global_vector = local_vector.to_world_vector(center, width, height);
                let ghost old_obstacles = obstacles@;
                if triangle.is_inside(&global_vector) {
                    obstacles.push(local_vector);
                    proof {
                        assert forall|p: LocalVector|
                            obstacle_at(t, c, width, height, p) && lex_lt(p, LocalVector { x, y, z: (z + 1) as u32 })
                            implies obstacles@.contains(p) by {
                            if p == local_vector {
                                assert(obstacles@[obstacles.len() - 1] == p);
                            } else {
                                assert(lex_lt(p, LocalVector { x, y, z }));
                                assert(old_obstacles.contains(p));
                                let i = choose|i: int| 0 <= i < old_obstacles.len() && old_obstacles[i] == p;
                                assert(obstacles@[i] == p);
                            }
                        }
                    }
                } else {
                    proof {
                        assert forall|p: LocalVector|
                            obstacle_at(t, c, width, height, p) && lex_lt(p, LocalVector { x, y, z: (z + 1) as u32 })
                            implies obstacles@.contains(p) by {
                            if p == local_vector {
                            } else {
                                assert(lex_lt(p, LocalVector { x, y, z }));
                            }
                        }
                    }
                }
                z += 1;
            }
            proof {
                assert forall|p: LocalVector|
                    obstacle_at(t, c, width, height, p) && (p.x < x || (p.x == x && p.y < y + 1))
                    implies obstacles@.contains(p) by {
                    assert(lex_lt(p, LocalVector { x, y, z }));
                }
            }
            y += 1;
        }
        proof {
            assert forall|p: LocalVector|
                obstacle_at(t, c, width, height, p) && p.x < x + 1
                implies obstacles@.contains(p) by {
                assert(p.x < x || (p.x == x && p.y < y));
            }
        }
        x += 1;
    }
    proof {
        assert forall|p: LocalVector| obstacle_at(t, c, width, height, p) implies obstacles@.contains(p) by {
            assert(p.x < x);
        }
    }
    obstacles
}

} // verus!
