//! Chunk view diffing.
//!
//! Given a previous observation region (or none, on a first computation)
//! and a new one, computes the minimal set of chunk coordinates to start
//! tracking (`to_load`) and to stop tracking (`to_unload`): the two sides
//! of the symmetric difference between the regions. The result is correct
//! even when center and radius change at once and the regions do not
//! overlap, and a coordinate inside both regions appears in neither
//! output.

use vstd::prelude::*;
use vstd::seq_lib::lemma_seq_contains_after_push;

verus! {

/// A chunk coordinate on the horizontal plane.
#[derive(Clone, Copy, Debug, PartialEq, Eq, Structural)]
pub struct ChunkPos {
    pub x: i32,
    pub z: i32,
}

/// The shape policy of an observation region.
#[derive(Clone, Copy, Debug, PartialEq, Eq, Structural)]
pub enum ViewShape {
    Square,
    Circular,
}

/// An observation region: the chunks within `radius` of `center`, under
/// Chebyshev distance for the square shape and Euclidean distance for the
/// circular one.
#[derive(Clone, Copy, Debug, PartialEq, Eq, Structural)]
pub struct Region {
    pub center: ChunkPos,
    pub radius: i32,
    pub shape: ViewShape,
}

pub open spec fn abs_of(v: int) -> int {
    if v < 0 {
        -v
    } else {
        v
    }
}

/// Bounds under which the diff arithmetic cannot overflow a machine word.
pub open spec fn region_wf(r: Region) -> bool {
    &&& 0 <= r.radius <= 0x8000
    &&& abs_of(r.center.x as int) <= 0x10000000
    &&& abs_of(r.center.z as int) <= 0x10000000
}

/// Membership of a chunk coordinate in a region.
pub open spec fn in_region(r: Region, p: ChunkPos) -> bool {
    match r.shape {
        ViewShape::Square => abs_of(p.x - r.center.x) <= r.radius && abs_of(p.z - r.center.z)
            <= r.radius,
        ViewShape::Circular => (p.x - r.center.x) * (p.x - r.center.x) + (p.z - r.center.z) * (p.z
            - r.center.z) <= r.radius * r.radius,
    }
}

/// Membership in an optional previous region; a first computation has no
/// previous region, which contains nothing.
pub open spec fn in_prev(prev: Option<Region>, p: ChunkPos) -> bool {
    match prev {
        Some(r) => in_region(r, p),
        None => false,
    }
}

/// A region member lies in the bounding box of the region.
proof fn lemma_in_box(r: Region, p: ChunkPos)
    requires
        region_wf(r),
        in_region(r, p),
    ensures
        abs_of(p.x - r.center.x) <= r.radius,
        abs_of(p.z - r.center.z) <= r.radius,
{
    match r.shape {
        ViewShape::Square => {},
        ViewShape::Circular => {
            let dx = p.x - r.center.x;
            let dz = p.z - r.center.z;
            assert(abs_of(dx) <= r.radius && abs_of(dz) <= r.radius) by (nonlinear_arith)
                requires
                    dx * dx + dz * dz <= r.radius * r.radius,
                    r.radius >= 0,
            ;
        },
    }
}

/// Exact membership test.
pub fn contains_pos(r: &Region, p: ChunkPos) -> (b: bool)
    requires
        region_wf(*r),
        abs_of(p.x as int) <= 0x20000000,
        abs_of(p.z as int) <= 0x20000000,
    ensures
        b == in_region(*r, p),
{
    let dx: i64 = (p.x as i64) - (r.center.x as i64);
    let dz: i64 = (p.z as i64) - (r.center.z as i64);
    let rad: i64 = r.radius as i64;
    proof {
        assert(dx * dx <= 0x900000000000000 && dx * dx >= 0) by (nonlinear_arith)
            requires
                -0x30000000 <= dx <= 0x30000000,
        ;
        assert(dz * dz <= 0x900000000000000 && dz * dz >= 0) by (nonlinear_arith)
            requires
                -0x30000000 <= dz <= 0x30000000,
        ;
        assert(rad * rad <= 0x40000000 && rad * rad >= 0) by (nonlinear_arith)
            requires
                0 <= rad <= 0x8000,
        ;
    }
    match r.shape {
        ViewShape::Square => {
            let adx: i64 = if dx < 0 {
                -dx
            } else {
                dx
            };
            let adz: i64 = if dz < 0 {
                -dz
            } else {
                dz
            };
            adx <= rad && adz <= rad
        },
        ViewShape::Circular => dx * dx + dz * dz <= rad * rad,
    }
}

fn opt_contains_pos(b: &Option<Region>, p: ChunkPos) -> (r: bool)
    requires
        (*b) is Some ==> region_wf((*b)->0),
        abs_of(p.x as int) <= 0x20000000,
        abs_of(p.z as int) <= 0x20000000,
    ensures
        r == in_prev(*b, p),
{
    match b {
        Some(reg) => contains_pos(reg, p),
        None => false,
    }
}

/// The coordinates inside `a` but not inside the optional region `b`,
/// each exactly once, scanned in row order over `a`'s bounding box.
fn region_minus(a: &Region, b: &Option<Region>) -> (out: Vec<ChunkPos>)
    requires
        region_wf(*a),
        (*b) is Some ==> region_wf((*b)->0),
    ensures
        forall|p: ChunkPos| out@.contains(p) <==> (in_region(*a, p) && !in_prev(*b, p)),
        out@.no_duplicates(),
{
    let cx: i32 = a.center.x;
    let cz: i32 = a.center.z;
    let rad: i32 = a.radius;
    let mut out: Vec<ChunkPos> = Vec::new();
    let mut x: i32 = cx - rad;
    proof {
        assert(out@.len() == 0);
        assert forall|p: ChunkPos|
            (in_region(*a, p) && !in_prev(*b, p) && p.x < cx - rad) implies out@.contains(p) by {
            lemma_in_box(*a, p);
        }
    }
    while x <= cx + rad
        invariant
            region_wf(*a),
            (*b) is Some ==> region_wf((*b)->0),
            cx == a.center.x && cz == a.center.z && rad == a.radius,
            cx - rad <= x <= cx + rad + 1,
            forall|p: ChunkPos|
                out@.contains(p) <==> (in_region(*a, p) && !in_prev(*b, p) && p.x < x),
            out@.no_duplicates(),
        decreases cx + rad + 1 - x,
    {
        let mut z: i32 = cz - rad;
        proof {
            assert forall|p: ChunkPos| out@.contains(p) implies (in_region(*a, p) && !in_prev(
                *b,
                p,
            ) && (p.x < x || (p.x == x && p.z < z))) by {}
            assert forall|p: ChunkPos|
                (in_region(*a, p) && !in_prev(*b, p) && (p.x < x || (p.x == x && p.z
                    < z))) implies out@.contains(p) by {
                lemma_in_box(*a, p);
            }
        }
        while z <= cz + rad
            invariant
                region_wf(*a),
                (*b) is Some ==> region_wf((*b)->0),
                cx == a.center.x && cz == a.center.z && rad == a.radius,
                cx - rad <= x <= cx + rad,
                cz - rad <= z <= cz + rad + 1,
                forall|p: ChunkPos|
                    out@.contains(p) <==> (in_region(*a, p) && !in_prev(*b, p) && (p.x < x || (p.x
                        == x && p.z < z))),
                out@.no_duplicates(),
            decreases cz + rad + 1 - z,
        {
            let cand = ChunkPos { x, z };
            if contains_pos(a, cand) && !opt_contains_pos(b, cand) {
                let ghost out0 = out@;
                proof {
                    assert(!out@.contains(cand));
                }
                out.push(cand);
                proof {
                    assert forall|p: ChunkPos| #[trigger]
                        out@.contains(p) <==> (out0.contains(p) || p == cand) by {
                        lemma_seq_contains_after_push(out0, cand, p);
                    }
                }
            }
            z = z + 1;
        }
        proof {
            assert forall|p: ChunkPos|
                (in_region(*a, p) && !in_prev(*b, p) && p.x < x + 1) implies out@.contains(p) by {
                lemma_in_box(*a, p);
            }
        }
        x = x + 1;
    }
    proof {
        assert forall|p: ChunkPos| (in_region(*a, p) && !in_prev(*b, p)) implies out@.contains(
            p,
        ) by {
            lemma_in_box(*a, p);
        }
    }
    out
}

/// The two sides of a view diff. No coordinate appears in both, and no
/// coordinate inside both the previous and the new region appears in
/// either.
pub struct ViewDiff {
    pub to_load: Vec<ChunkPos>,
    pub to_unload: Vec<ChunkPos>,
}

/// Computes the minimal tracking delta between a previous observation
/// region (none on a first computation) and a new one: `to_load` holds
/// exactly the coordinates newly in view, `to_unload` exactly those no
/// longer in view, each exactly once.
pub fn compute_view_diff(prev: &Option<Region>, next: &Region) -> (d: ViewDiff)
    requires
        region_wf(*next),
        (*prev) is Some ==> region_wf((*prev)->0),
    ensures
        forall|p: ChunkPos|
            d.to_load@.contains(p) <==> (in_region(*next, p) && !in_prev(*prev, p)),
        forall|p: ChunkPos|
            d.to_unload@.contains(p) <==> (in_prev(*prev, p) && !in_region(*next, p)),
        d.to_load@.no_duplicates(),
        d.to_unload@.no_duplicates(),
{
    let to_load = region_minus(next, prev);
    let to_unload = match prev {
        Some(pr) => region_minus(pr, &Some(*next)),
        None => Vec::new(),
    };
    proof {
        if (*prev) is None {
            assert(forall|p: ChunkPos| !to_unload@.contains(p));
        }
    }
    ViewDiff { to_load, to_unload }
}

/// Minimality of the diff: no coordinate is both loaded and unloaded, and
/// a coordinate present in both the previous and the new region appears
/// in neither output.
pub proof fn lemma_diff_outputs_disjoint(
    to_load: Seq<ChunkPos>,
    to_unload: Seq<ChunkPos>,
    prev: Option<Region>,
    next: Region,
)
    requires
        forall|p: ChunkPos| to_load.contains(p) <==> (in_region(next, p) && !in_prev(prev, p)),
        forall|p: ChunkPos| to_unload.contains(p) <==> (in_prev(prev, p) && !in_region(next, p)),
    ensures
        forall|p: ChunkPos| !(to_load.contains(p) && to_unload.contains(p)),
        forall|p: ChunkPos|
            (in_prev(prev, p) && in_region(next, p)) ==> !to_load.contains(p)
                && !to_unload.contains(p),
{
}

/// A first computation (no previous region) loads exactly the new region
/// and unloads nothing.
pub proof fn lemma_first_diff_loads_whole_region(
    to_load: Seq<ChunkPos>,
    to_unload: Seq<ChunkPos>,
    next: Region,
)
    requires
        forall|p: ChunkPos|
            to_load.contains(p) <==> (in_region(next, p) && !in_prev(
                Option::<Region>::None,
                p,
            )),
        forall|p: ChunkPos|
            to_unload.contains(p) <==> (in_prev(Option::<Region>::None, p) && !in_region(next, p)),
    ensures
        forall|p: ChunkPos| to_load.contains(p) <==> in_region(next, p),
        to_unload.len() == 0,
{
    if to_unload.len() > 0 {
        assert(to_unload.contains(to_unload[0]));
    }
}

} // verus!
