//! Polygon tessellation.
//!
//! A polygon (outer ring plus holes) is flattened, triangulated in the plane
//! by an outside ear-clipping triangulator, and then every triangle is
//! subdivided until no planar edge is longer than the configured threshold,
//! so long boundary segments follow the globe's curvature once projected.
//! The module also computes the planar bounding box and the area-weighted
//! centroid used to anchor the polygon's label.
use vstd::prelude::*;

use crate::geo::{PlanarPoint, Polygon, COORD_LIMIT};

verus! {

use vstd::arithmetic::mul::{lemma_mul_inequality, lemma_mul_is_distributive_add};
use crate::num::{abs_int, tdiv, lemma_tdiv_bounds, lemma_sq_le, lemma_mul_abs_bound};

/// Why a polygon could not be tessellated. The caller skips such a polygon
/// and keeps processing the rest of the batch.
#[derive(Clone, Copy, Debug, PartialEq, Eq, Structural)]
pub enum GeometryError {
    /// The outer ring has too few points to bound an area.
    DegenerateOuterRing,
    /// The planar triangulator found no valid triangulation.
    Triangulation,
}

/// How many times one input triangle may be split before a fragment that
/// still exceeds the edge threshold is discarded. Each split at least
/// roughly halves the longest edge, so this depth is never reached for
/// coordinates within [`COORD_LIMIT`] and any threshold of a few units or
/// more; it exists to bound the worklist for adversarial inputs.
pub const SUBDIVISION_BUDGET: u32 = 64;

/// The rings of a polygon as a sequence of point sequences.
pub open spec fn rings_view(poly: &Polygon) -> Seq<Seq<PlanarPoint>> {
    poly.rings@.map_values(|r: Vec<PlanarPoint>| r@)
}

/// All rings laid out one after another.
pub open spec fn flat_points(rings: Seq<Seq<PlanarPoint>>) -> Seq<PlanarPoint>
    decreases rings.len(),
{
    if rings.len() == 0 {
        Seq::empty()
    } else {
        flat_points(rings.drop_last()) + rings.last()
    }
}

/// Number of points in the first `k` rings: the flat offset where ring `k`
/// starts.
pub open spec fn ring_offset(rings: Seq<Seq<PlanarPoint>>, k: int) -> int
    decreases k,
{
    if k <= 0 {
        0
    } else {
        ring_offset(rings, k - 1) + rings[k - 1].len()
    }
}

proof fn lemma_flat_prefix(rings: Seq<Seq<PlanarPoint>>, i: int)
    requires
        0 <= i < rings.len(),
    ensures
        flat_points(rings.subrange(0, i + 1)) == flat_points(rings.subrange(0, i)) + rings[i],
        ring_offset(rings.subrange(0, i + 1), i + 1) == ring_offset(rings.subrange(0, i), i)
            + rings[i].len(),
{
    let a = rings.subrange(0, i + 1);
    assert(a.drop_last() =~= rings.subrange(0, i));
    assert(a.last() == rings[i]);
    lemma_ring_offset_subrange(rings.subrange(0, i + 1), i);
}

proof fn lemma_ring_offset_subrange(rings: Seq<Seq<PlanarPoint>>, k: int)
    requires
        0 <= k <= rings.len(),
    ensures
        ring_offset(rings, k) == ring_offset(rings.subrange(0, k), k),
        forall|j: int|
            0 <= j <= k ==> #[trigger] ring_offset(rings.subrange(0, k), j) == ring_offset(
                rings,
                j,
            ),
    decreases k,
{
    if k > 0 {
        lemma_ring_offset_subrange(rings, k - 1);
        assert forall|j: int| 0 <= j <= k implies #[trigger] ring_offset(rings.subrange(0, k), j)
            == ring_offset(rings, j) by {
            lemma_ring_offset_same_prefix(rings.subrange(0, k), rings, j);
        }
    }
}

proof fn lemma_ring_offset_same_prefix(a: Seq<Seq<PlanarPoint>>, b: Seq<Seq<PlanarPoint>>, k: int)
    requires
        0 <= k <= a.len(),
        k <= b.len(),
        forall|j: int| 0 <= j < k ==> a[j] == b[j],
    ensures
        ring_offset(a, k) == ring_offset(b, k),
    decreases k,
{
    if k > 0 {
        lemma_ring_offset_same_prefix(a, b, k - 1);
    }
}

/// The hole start offsets of a ring list: where each ring after the outer
/// one begins in the flat point list.
pub open spec fn holes_spec(rings: Seq<Seq<PlanarPoint>>) -> Seq<usize> {
    Seq::new(
        if rings.len() == 0 {
            0nat
        } else {
            (rings.len() - 1) as nat
        },
        |i: int| ring_offset(rings, i + 1) as usize,
    )
}

/// Flatten the rings of a polygon into one point list plus, for each hole
/// ring, the offset in that list where the hole starts.
pub fn flatten_polygon(poly: &Polygon) -> (r: (Vec<PlanarPoint>, Vec<usize>))
    requires
        poly.in_range(),
    ensures
        r.0@ == flat_points(rings_view(poly)),
        r.0@.len() == ring_offset(rings_view(poly), rings_view(poly).len() as int),
        r.1@ == holes_spec(rings_view(poly)),
        all_in_range(r.0@),
        r.1@.len() == if rings_view(poly).len() == 0 {
            0int
        } else {
            rings_view(poly).len() - 1
        },
        forall|i: int|
            0 <= i < r.1@.len() ==> #[trigger] r.1@[i] as int == ring_offset(
                rings_view(poly),
                i + 1,
            ) && r.1@[i] <= r.0@.len(),
{
    let ghost rings: Seq<Seq<PlanarPoint>> = rings_view(poly);
    let mut points: Vec<PlanarPoint> = Vec::new();
    let mut holes: Vec<usize> = Vec::new();
    let mut i: usize = 0;
    proof {
        assert(flat_points(rings.subrange(0, 0)) =~= Seq::<PlanarPoint>::empty());
    }
    while i < poly.rings.len()
        invariant
            poly.in_range(),
            rings == rings_view(poly),
            0 <= i <= rings.len(),
            points@ == flat_points(rings.subrange(0, i as int)),
            points@.len() == ring_offset(rings, i as int),
            all_in_range(points@),
            holes@.len() == if i == 0 {
                0int
            } else {
                i - 1
            },
            forall|h: int|
                0 <= h < holes@.len() ==> #[trigger] holes@[h] as int == ring_offset(rings, h + 1)
                    && holes@[h] <= points@.len(),
        decreases rings.len() - i,
    {
        if i > 0 {
            holes.push(points.len());
        }
        let ghost points_at_ring: Seq<PlanarPoint> = points@;
        let ring = &poly.rings[i];
        let mut j: usize = 0;
        while j < ring.len()
            invariant
                poly.in_range(),
                rings == rings_view(poly),
                0 <= i < rings.len(),
                ring@ == rings[i as int],
                0 <= j <= ring@.len(),
                points@ == points_at_ring + ring@.subrange(0, j as int),
                all_in_range(points@),
            decreases ring@.len() - j,
        {
            proof {
                assert(rings[i as int][j as int].in_range());
                assert(points_at_ring + ring@.subrange(0, j + 1) =~= (points_at_ring
                    + ring@.subrange(0, j as int)).push(ring@[j as int]));
            }
            points.push(ring[j]);
            j = j + 1;
        }
        proof {
            assert(points@ =~= points_at_ring + rings[i as int]);
            lemma_flat_prefix(rings, i as int);
            lemma_ring_offset_subrange(rings, i as int);
            lemma_ring_offset_subrange(rings, i + 1);
        }
        i = i + 1;
    }
    proof {
        assert(rings.subrange(0, rings.len() as int) =~= rings);
        assert forall|h: int| 0 <= h < holes@.len() implies holes@[h] == holes_spec(rings)[h] by {
            assert(holes@[h] as int == ring_offset(rings, h + 1));
        }
        assert(holes@ =~= holes_spec(rings));
    }
    (points, holes)
}

/// A point list laid out as a flat x, y coordinate buffer.
pub open spec fn interleave_spec(points: Seq<PlanarPoint>) -> Seq<i64> {
    Seq::new(
        2 * points.len(),
        |i: int|
            if i % 2 == 0 {
                points[i / 2].x
            } else {
                points[i / 2].y
            },
    )
}

/// Interleave a point list into a flat x, y coordinate buffer.
fn interleave_coords(points: &Vec<PlanarPoint>) -> (coords: Vec<i64>)
    ensures
        coords@ == interleave_spec(points@),
        coords@.len() == 2 * points@.len(),
        forall|i: int|
            0 <= i < points@.len() ==> coords@[2 * i] == (#[trigger] points@[i]).x && coords@[2 * i
                + 1] == points@[i].y,
{
    let mut coords: Vec<i64> = Vec::new();
    let mut i: usize = 0;
    while i < points.len()
        invariant
            0 <= i <= points@.len(),
            coords@.len() == 2 * i,
            forall|k: int|
                0 <= k < i ==> coords@[2 * k] == (#[trigger] points@[k]).x && coords@[2 * k + 1]
                    == points@[k].y,
        decreases points@.len() - i,
    {
        coords.push(points[i].x);
        coords.push(points[i].y);
        i = i + 1;
    }
    proof {
        assert forall|j: int| 0 <= j < coords@.len() implies coords@[j] == interleave_spec(
            points@,
        )[j] by {
            let k = j / 2;
            assert(j == 2 * k || j == 2 * k + 1);
        }
        assert(coords@ =~= interleave_spec(points@));
    }
    coords
}

/// The triangulation the planar ear-clipping triangulator computes for a
/// flat coordinate buffer and hole offsets: a pure function of its
/// arguments, shared by every clause that speaks of the triangulator.
pub uninterp spec fn earcut_of(coords: Seq<i64>, holes: Seq<usize>) -> Result<Seq<usize>, ()>;

/// Relies on earcutr::earcut: ear-clipping triangulation of a planar polygon
/// given as a flat even-length coordinate buffer plus hole-ring start offsets
/// in points. The call depends on its arguments alone, so its outcome and
/// index list carry the [`earcut_of`] name; on success the indices come in
/// triples and each names an input point; earcutr reports bad input (odd
/// buffers, out-of-range hole offsets, rings it cannot triangulate) as an
/// error, which is mapped to the library's own.
#[verifier::external_body]
fn earcut_triangulate(coords: &Vec<i64>, holes: &Vec<usize>) -> (r: Result<
    Vec<usize>,
    GeometryError,
>)
    ensures
        r is Ok <==> earcut_of(coords@, holes@) is Ok,
        r is Ok ==> (r->Ok_0)@ == earcut_of(coords@, holes@)->Ok_0,
        r is Err ==> r->Err_0 == GeometryError::Triangulation,
        r is Ok ==> (r->Ok_0)@.len() % 3 == 0,
        r is Ok ==> indices_below((r->Ok_0)@, coords@.len() as int / 2),
{
    let data: geojson::Bbox = coords.iter().map(|&c| num_traits::cast(c).unwrap()).collect();
    match earcutr::earcut(&data, holes, 2) {
        Ok(t) => Ok(t),
        Err(_) => Err(GeometryError::Triangulation),
    }
}

/// The planar bounding box of one polygon's points.
#[derive(Clone, Copy, Debug, PartialEq, Eq, Structural)]
pub struct PlanarBounds {
    pub min_x: i64,
    pub min_y: i64,
    pub max_x: i64,
    pub max_y: i64,
}

impl PlanarBounds {
    /// The point lies inside the box (borders included).
    pub open spec fn contains(&self, p: PlanarPoint) -> bool {
        self.min_x <= p.x <= self.max_x && self.min_y <= p.y <= self.max_y
    }

    /// All four box coordinates within the admissible planar range.
    pub open spec fn in_range(&self) -> bool {
        -COORD_LIMIT <= self.min_x <= COORD_LIMIT && -COORD_LIMIT <= self.max_x <= COORD_LIMIT
            && -COORD_LIMIT <= self.min_y <= COORD_LIMIT && -COORD_LIMIT <= self.max_y
            <= COORD_LIMIT
    }
}

/// The running minima and maxima over the first `k` points.
pub open spec fn bounds_fold(points: Seq<PlanarPoint>, k: int) -> PlanarBounds
    decreases k,
{
    if k <= 1 {
        PlanarBounds {
            min_x: points[0].x,
            min_y: points[0].y,
            max_x: points[0].x,
            max_y: points[0].y,
        }
    } else {
        let b = bounds_fold(points, k - 1);
        let p = points[k - 1];
        PlanarBounds {
            min_x: if p.x < b.min_x {
                p.x
            } else {
                b.min_x
            },
            min_y: if p.y < b.min_y {
                p.y
            } else {
                b.min_y
            },
            max_x: if p.x > b.max_x {
                p.x
            } else {
                b.max_x
            },
            max_y: if p.y > b.max_y {
                p.y
            } else {
                b.max_y
            },
        }
    }
}

/// Running minima and maxima over a point list; every coordinate of the box
/// is attained by some point.
pub fn compute_bounds(points: &Vec<PlanarPoint>) -> (b: PlanarBounds)
    requires
        points@.len() > 0,
        all_in_range(points@),
    ensures
        b == bounds_fold(points@, points@.len() as int),
        forall|i: int| 0 <= i < points@.len() ==> b.contains(#[trigger] points@[i]),
        b.min_x <= b.max_x,
        b.min_y <= b.max_y,
        (PlanarPoint { x: b.min_x, y: b.min_y }).in_range(),
        (PlanarPoint { x: b.max_x, y: b.max_y }).in_range(),
        b.in_range(),
        (exists|i: int| 0 <= i < points@.len() && (#[trigger] points@[i]).x == b.min_x),
        (exists|i: int| 0 <= i < points@.len() && (#[trigger] points@[i]).x == b.max_x),
        (exists|i: int| 0 <= i < points@.len() && (#[trigger] points@[i]).y == b.min_y),
        (exists|i: int| 0 <= i < points@.len() && (#[trigger] points@[i]).y == b.max_y),
{
    let first = points[0];
    let mut b = PlanarBounds { min_x: first.x, min_y: first.y, max_x: first.x, max_y: first.y };
    let mut i: usize = 1;
    while i < points.len()
        invariant
            1 <= i <= points@.len(),
            b == bounds_fold(points@, i as int),
            all_in_range(points@),
            forall|k: int| 0 <= k < i ==> b.contains(#[trigger] points@[k]),
            b.min_x <= b.max_x,
            b.min_y <= b.max_y,
            (exists|k: int| 0 <= k < i && (#[trigger] points@[k]).x == b.min_x),
            (exists|k: int| 0 <= k < i && (#[trigger] points@[k]).x == b.max_x),
            (exists|k: int| 0 <= k < i && (#[trigger] points@[k]).y == b.min_y),
            (exists|k: int| 0 <= k < i && (#[trigger] points@[k]).y == b.max_y),
        decreases points@.len() - i,
    {
        let p = points[i];
        if p.x < b.min_x {
            b.min_x = p.x;
        }
        if p.x > b.max_x {
            b.max_x = p.x;
        }
        if p.y < b.min_y {
            b.min_y = p.y;
        }
        if p.y > b.max_y {
            b.max_y = p.y;
        }
        i = i + 1;
    }
    proof {
        let w1 = choose|k: int| 0 <= k < points@.len() && (#[trigger] points@[k]).x == b.min_x;
        assert(points@[w1].in_range());
        let w2 = choose|k: int| 0 <= k < points@.len() && (#[trigger] points@[k]).x == b.max_x;
        assert(points@[w2].in_range());
        let w3 = choose|k: int| 0 <= k < points@.len() && (#[trigger] points@[k]).y == b.min_y;
        assert(points@[w3].in_range());
        let w4 = choose|k: int| 0 <= k < points@.len() && (#[trigger] points@[k]).y == b.max_y;
        assert(points@[w4].in_range());
    }
    b
}

/// Squared planar distance between two points.
pub open spec fn edge_sq(p: PlanarPoint, q: PlanarPoint) -> int {
    (p.x - q.x) * (p.x - q.x) + (p.y - q.y) * (p.y - q.y)
}

/// Squared length of the longest edge of the triangle over points
/// `points[a]`, `points[b]`, `points[c]`.
pub open spec fn tri_max_edge_sq(points: Seq<PlanarPoint>, a: int, b: int, c: int) -> int {
    let ab = edge_sq(points[a], points[b]);
    let bc = edge_sq(points[b], points[c]);
    let ca = edge_sq(points[c], points[a]);
    if ab >= bc && ab >= ca {
        ab
    } else if bc >= ca {
        bc
    } else {
        ca
    }
}

/// Triangle `k` of the flat index list `tris` has no edge whose squared
/// planar length exceeds `maxima_sq`.
pub open spec fn triangle_within(
    points: Seq<PlanarPoint>,
    tris: Seq<usize>,
    k: int,
    maxima_sq: int,
) -> bool {
    tri_max_edge_sq(points, tris[3 * k] as int, tris[3 * k + 1] as int, tris[3 * k + 2] as int)
        <= maxima_sq
}

/// Every value of `tris` is below `n`.
pub open spec fn indices_below(tris: Seq<usize>, n: int) -> bool {
    forall|i: int| 0 <= i < tris.len() ==> (#[trigger] tris[i]) < n
}

/// Every point of `points` is within coordinate range.
pub open spec fn all_in_range(points: Seq<PlanarPoint>) -> bool {
    forall|i: int| 0 <= i < points.len() ==> (#[trigger] points[i]).in_range()
}

/// A worklist entry: one triangle by point indices, with the number of
/// further splits it is still allowed.
pub struct Tri {
    pub a: usize,
    pub b: usize,
    pub c: usize,
    pub budget: u32,
}

/// 4 to the power `b`; the weight a worklist entry of budget `b` contributes
/// to the termination measure.
pub open spec fn pow4(b: nat) -> nat
    decreases b,
{
    if b == 0 {
        1
    } else {
        4 * pow4((b - 1) as nat)
    }
}

/// Termination measure of the subdivision worklist.
pub open spec fn stack_measure(s: Seq<Tri>) -> nat
    decreases s.len(),
{
    if s.len() == 0 {
        0
    } else {
        stack_measure(s.drop_last()) + pow4(s.last().budget as nat)
    }
}

pub proof fn lemma_pow4_pos(b: nat)
    ensures
        pow4(b) >= 1,
    decreases b,
{
    if b > 0 {
        lemma_pow4_pos((b - 1) as nat);
    }
}

pub proof fn lemma_stack_push(s: Seq<Tri>, t: Tri)
    ensures
        stack_measure(s.push(t)) == stack_measure(s) + pow4(t.budget as nat),
{
    assert(s.push(t).drop_last() =~= s);
}

/// The seed worklist of a flat triangle index list: one entry per triple, in
/// order, each with the full split budget.
pub open spec fn seed_spec(tris: Seq<usize>) -> Seq<Tri> {
    Seq::new(
        tris.len() / 3,
        |k: int| Tri { a: tris[3 * k], b: tris[3 * k + 1], c: tris[3 * k + 2], budget: SUBDIVISION_BUDGET },
    )
}

/// The subdivision worklist, run to exhaustion, as a function: the final
/// point list (the input points followed by the appended midpoints) and the
/// emitted triangle indices. The worklist pops from the end; a popped
/// triangle whose longest edge is within the threshold is emitted, one out
/// of budget is discarded, and any other is split at the rounded midpoint of
/// its strictly longest edge.
#[verifier::opaque]
pub open spec fn subdivide_rec(points: Seq<PlanarPoint>, stack: Seq<Tri>, maxima_sq: int) -> (
    Seq<PlanarPoint>,
    Seq<usize>,
)
    decreases stack_measure(stack),
{
    if stack.len() == 0 {
        (points, Seq::empty())
    } else {
        let t = stack.last();
        let rest = stack.drop_last();
        let pa = points[t.a as int];
        let pb = points[t.b as int];
        let pc = points[t.c as int];
        let ab = edge_sq(pa, pb);
        let bc = edge_sq(pb, pc);
        let ca = edge_sq(pc, pa);
        let d_idx = points.len() as usize;
        let nb = (t.budget - 1) as u32;
        let step: Option<(PlanarPoint, Tri, Tri)> = if ab > bc && ab > maxima_sq {
            if ab > ca {
                Some(
                    (
                        mid_spec(pa, pb),
                        Tri { a: t.a, b: d_idx, c: t.c, budget: nb },
                        Tri { a: t.b, b: t.c, c: d_idx, budget: nb },
                    ),
                )
            } else {
                Some(
                    (
                        mid_spec(pc, pa),
                        Tri { a: t.a, b: t.b, c: d_idx, budget: nb },
                        Tri { a: t.b, b: t.c, c: d_idx, budget: nb },
                    ),
                )
            }
        } else if bc > ca && bc > maxima_sq {
            Some(
                (
                    mid_spec(pb, pc),
                    Tri { a: t.a, b: t.b, c: d_idx, budget: nb },
                    Tri { a: t.a, b: d_idx, c: t.c, budget: nb },
                ),
            )
        } else if ca > maxima_sq {
            Some(
                (
                    mid_spec(pc, pa),
                    Tri { a: t.a, b: t.b, c: d_idx, budget: nb },
                    Tri { a: t.b, b: t.c, c: d_idx, budget: nb },
                ),
            )
        } else {
            None
        };
        proof {
            lemma_pow4_pos(t.budget as nat);
            assert(stack.drop_last() =~= rest);
            if t.budget > 0 && step is Some {
                let s1 = step->Some_0.1;
                let s2 = step->Some_0.2;
                lemma_stack_push(rest, s1);
                lemma_stack_push(rest.push(s1), s2);
                assert(pow4(t.budget as nat) == 4 * pow4(nb as nat));
                lemma_pow4_pos(nb as nat);
            }
        }
        match step {
            None => {
                let r = subdivide_rec(points, rest, maxima_sq);
                (r.0, seq![t.a, t.b, t.c] + r.1)
            },
            Some(st) => {
                if t.budget > 0 {
                    subdivide_rec(points.push(st.0), rest.push(st.1).push(st.2), maxima_sq)
                } else {
                    subdivide_rec(points, rest, maxima_sq)
                }
            },
        }
    }
}

/// Squared planar distance, exactly.
fn dist_sq(p: PlanarPoint, q: PlanarPoint) -> (r: i64)
    requires
        p.in_range(),
        q.in_range(),
    ensures
        r as int == edge_sq(p, q),
        r >= 0,
{
    let dx = p.x - q.x;
    let dy = p.y - q.y;
    proof {
        lemma_sq_le(dx as int, 2 * COORD_LIMIT as int);
        lemma_sq_le(dy as int, 2 * COORD_LIMIT as int);
    }
    dx * dx + dy * dy
}

/// The rounded midpoint of two points, coordinates truncated toward zero.
pub open spec fn mid_spec(p: PlanarPoint, q: PlanarPoint) -> PlanarPoint {
    PlanarPoint { x: tdiv(p.x + q.x, 2) as i64, y: tdiv(p.y + q.y, 2) as i64 }
}

/// Rounded midpoint of two in-range coordinates, itself in range.
fn mid_coord(a: i64, b: i64) -> (r: i64)
    requires
        -COORD_LIMIT <= a <= COORD_LIMIT,
        -COORD_LIMIT <= b <= COORD_LIMIT,
    ensures
        r as int == tdiv(a as int + b as int, 2),
        -COORD_LIMIT <= r <= COORD_LIMIT,
{
    (a + b) / 2
}

/// Rounded midpoint of two in-range points.
fn midpoint(p: PlanarPoint, q: PlanarPoint) -> (r: PlanarPoint)
    requires
        p.in_range(),
        q.in_range(),
    ensures
        r == mid_spec(p, q),
        r.in_range(),
{
    PlanarPoint { x: mid_coord(p.x, q.x), y: mid_coord(p.y, q.y) }
}

/// Twice the signed area of the triangle `a`, `b`, `c` (a cross product).
pub open spec fn cross2(a: PlanarPoint, b: PlanarPoint, c: PlanarPoint) -> int {
    (b.x - a.x) * (c.y - a.y) - (b.y - a.y) * (c.x - a.x)
}

/// The weight triangle `k` contributes to the centroid: twice its planar
/// area if none of its corners is a hole vertex (a flat point index at or
/// past `hole_start`), else nothing.
pub open spec fn tri_weight(
    points: Seq<PlanarPoint>,
    tris: Seq<usize>,
    hole_start: int,
    k: int,
) -> int {
    if tris[3 * k] < hole_start && tris[3 * k + 1] < hole_start && tris[3 * k + 2] < hole_start {
        abs_int(
            cross2(
                points[tris[3 * k] as int],
                points[tris[3 * k + 1] as int],
                points[tris[3 * k + 2] as int],
            ),
        )
    } else {
        0
    }
}

/// Total centroid weight of the first `k` triangles.
pub open spec fn cent_weight(
    points: Seq<PlanarPoint>,
    tris: Seq<usize>,
    hole_start: int,
    k: int,
) -> int
    decreases k,
{
    if k <= 0 {
        0
    } else {
        cent_weight(points, tris, hole_start, k - 1) + tri_weight(points, tris, hole_start, k - 1)
    }
}

/// Weighted x numerator over the first `k` triangles: each counted triangle
/// adds the sum of its corners' x coordinates times its weight (so the final
/// division carries an extra factor of three).
pub open spec fn cent_num_x(
    points: Seq<PlanarPoint>,
    tris: Seq<usize>,
    hole_start: int,
    k: int,
) -> int
    decreases k,
{
    if k <= 0 {
        0
    } else {
        cent_num_x(points, tris, hole_start, k - 1) + (points[tris[3 * (k - 1)] as int].x
            + points[tris[3 * (k - 1) + 1] as int].x + points[tris[3 * (k - 1) + 2] as int].x)
            * tri_weight(points, tris, hole_start, k - 1)
    }
}

/// Weighted y numerator over the first `k` triangles.
pub open spec fn cent_num_y(
    points: Seq<PlanarPoint>,
    tris: Seq<usize>,
    hole_start: int,
    k: int,
) -> int
    decreases k,
{
    if k <= 0 {
        0
    } else {
        cent_num_y(points, tris, hole_start, k - 1) + (points[tris[3 * (k - 1)] as int].y
            + points[tris[3 * (k - 1) + 1] as int].y + points[tris[3 * (k - 1) + 2] as int].y)
            * tri_weight(points, tris, hole_start, k - 1)
    }
}

/// The area-weighted planar centroid of the counted (non-hole) triangles,
/// or the bounding box's center when every triangle is degenerate or
/// touches a hole.
pub open spec fn centroid_spec(
    points: Seq<PlanarPoint>,
    tris: Seq<usize>,
    hole_start: int,
    b: PlanarBounds,
) -> PlanarPoint {
    let n = tris.len() as int / 3;
    let w = cent_weight(points, tris, hole_start, n);
    if w > 0 {
        PlanarPoint {
            x: tdiv(cent_num_x(points, tris, hole_start, n), 3 * w) as i64,
            y: tdiv(cent_num_y(points, tris, hole_start, n), 3 * w) as i64,
        }
    } else {
        PlanarPoint { x: tdiv(b.min_x + b.max_x, 2) as i64, y: tdiv(b.min_y + b.max_y, 2) as i64 }
    }
}

/// Area-weighted planar centroid of the counted (non-hole) triangles; when
/// every triangle is degenerate or touches a hole, the center of the
/// bounding box stands in. Either way the result lies inside `b`.
#[verifier::rlimit(60)]
#[verifier::spinoff_prover]
pub fn polygon_centroid(
    points: &Vec<PlanarPoint>,
    tris: &Vec<usize>,
    hole_start: usize,
    b: PlanarBounds,
) -> (c: PlanarPoint)
    requires
        all_in_range(points@),
        tris@.len() % 3 == 0,
        tris@.len() <= 0x1_0000_0000,
        indices_below(tris@, points@.len() as int),
        forall|i: int| 0 <= i < points@.len() ==> b.contains(#[trigger] points@[i]),
        b.min_x <= b.max_x,
        b.min_y <= b.max_y,
        (PlanarPoint { x: b.min_x, y: b.min_y }).in_range(),
        (PlanarPoint { x: b.max_x, y: b.max_y }).in_range(),
    ensures
        c == centroid_spec(points@, tris@, hole_start as int, b),
        b.contains(c),
        c.in_range(),
        ({
            let n = tris@.len() as int / 3;
            let w = cent_weight(points@, tris@, hole_start as int, n);
            if w > 0 {
                c.x == tdiv(cent_num_x(points@, tris@, hole_start as int, n), 3 * w) && c.y == tdiv(
                    cent_num_y(points@, tris@, hole_start as int, n),
                    3 * w,
                )
            } else {
                c.x == tdiv(b.min_x + b.max_x, 2) && c.y == tdiv(b.min_y + b.max_y, 2)
            }
        }),
{
    let ghost hs: int = hole_start as int;
    let mut wacc: i128 = 0;
    let mut nx: i128 = 0;
    let mut ny: i128 = 0;
    let mut k: usize = 0;
    let n = tris.len() / 3;
    proof {
        assert(n as int == tris@.len() as int / 3);
    }
    while k < n
        invariant
            all_in_range(points@),
            tris@.len() % 3 == 0,
            tris@.len() <= 0x1_0000_0000,
            n as int == tris@.len() as int / 3,
            indices_below(tris@, points@.len() as int),
            forall|i: int| 0 <= i < points@.len() ==> b.contains(#[trigger] points@[i]),
            b.min_x <= b.max_x,
            b.min_y <= b.max_y,
            (PlanarPoint { x: b.min_x, y: b.min_y }).in_range(),
            (PlanarPoint { x: b.max_x, y: b.max_y }).in_range(),
            hs == hole_start as int,
            0 <= k <= n,
            wacc as int == cent_weight(points@, tris@, hs, k as int),
            nx as int == cent_num_x(points@, tris@, hs, k as int),
            ny as int == cent_num_y(points@, tris@, hs, k as int),
            0 <= wacc as int <= k as int * 0x4000_0000_0000_0000,
            abs_int(nx as int) <= k as int * 0x1040_0000_0000_0000_0000_0000,
            abs_int(ny as int) <= k as int * 0x1040_0000_0000_0000_0000_0000,
            3 * b.min_x as int * wacc as int <= nx as int <= 3 * b.max_x as int * wacc as int,
            3 * b.min_y as int * wacc as int <= ny as int <= 3 * b.max_y as int * wacc as int,
        decreases n - k,
    {
        proof {
            assert(3 * (k as int) + 2 < tris@.len());
            lemma_mul_inequality(k as int, 0x1_0000_0000, 0x4000_0000_0000_0000);
            lemma_mul_inequality(k as int, 0x1_0000_0000, 0x1040_0000_0000_0000_0000_0000int);
        }
        let ia = tris[3 * k];
        let ib = tris[3 * k + 1];
        let ic = tris[3 * k + 2];
        let ghost ki: int = k as int;
        let ghost wacc0 = wacc as int;
        let ghost nx0 = nx as int;
        let ghost ny0 = ny as int;
        if ia < hole_start && ib < hole_start && ic < hole_start {
            let pa = points[ia];
            let pb = points[ib];
            let pc = points[ic];
            proof {
                lemma_mul_abs_bound(pb.x as int - pa.x as int, pc.y as int - pa.y as int, 2
                    * COORD_LIMIT as int, 2 * COORD_LIMIT as int);
                lemma_mul_abs_bound(pb.y as int - pa.y as int, pc.x as int - pa.x as int, 2
                    * COORD_LIMIT as int, 2 * COORD_LIMIT as int);
            }
            let cross: i64 = (pb.x - pa.x) * (pc.y - pa.y) - (pb.y - pa.y) * (pc.x - pa.x);
            let w: i64 = if cross >= 0 {
                cross
            } else {
                -cross
            };
            let sx: i64 = pa.x + pb.x + pc.x;
            let sy: i64 = pa.y + pb.y + pc.y;
            proof {
                lemma_mul_abs_bound(sx as int, w as int, 0x4100_0000, 0x4000_0000_0000_0000);
                lemma_mul_abs_bound(sy as int, w as int, 0x4100_0000, 0x4000_0000_0000_0000);
                // the per-triangle term respects the same per-corner bounds
                lemma_mul_inequality(3 * b.min_x as int, sx as int, w as int);
                lemma_mul_inequality(sx as int, 3 * b.max_x as int, w as int);
                lemma_mul_inequality(3 * b.min_y as int, sy as int, w as int);
                lemma_mul_inequality(sy as int, 3 * b.max_y as int, w as int);
                lemma_mul_is_distributive_add(3 * b.min_x as int, wacc0, w as int);
                lemma_mul_is_distributive_add(3 * b.max_x as int, wacc0, w as int);
                lemma_mul_is_distributive_add(3 * b.min_y as int, wacc0, w as int);
                lemma_mul_is_distributive_add(3 * b.max_y as int, wacc0, w as int);
            }
            wacc = wacc + (w as i128);
            nx = nx + (sx as i128) * (w as i128);
            ny = ny + (sy as i128) * (w as i128);
            proof {
                assert(tri_weight(points@, tris@, hs, ki) == w as int);
                assert(cent_weight(points@, tris@, hs, ki + 1) == wacc0 + tri_weight(
                    points@,
                    tris@,
                    hs,
                    ki,
                ));
                assert(cent_num_x(points@, tris@, hs, ki + 1) == nx0 + (sx as int) * (w as int));
                assert(cent_num_y(points@, tris@, hs, ki + 1) == ny0 + (sy as int) * (w as int));
            }
        } else {
            proof {
                assert(tri_weight(points@, tris@, hs, ki) == 0);
                assert(cent_weight(points@, tris@, hs, ki + 1) == wacc0);
                assert(cent_num_x(points@, tris@, hs, ki + 1) == nx0);
                assert(cent_num_y(points@, tris@, hs, ki + 1) == ny0);
            }
        }
        k = k + 1;
    }
    if wacc > 0 {
        proof {
            lemma_mul_inequality(k as int, 0x1_0000_0000, 0x4000_0000_0000_0000);
            lemma_mul_inequality(k as int, 0x1_0000_0000, 0x1040_0000_0000_0000_0000_0000int);
        }
        let den: i128 = 3 * wacc;
        let qx: i128 = if nx >= 0 {
            nx / den
        } else {
            -((-nx) / den)
        };
        let qy: i128 = if ny >= 0 {
            ny / den
        } else {
            -((-ny) / den)
        };
        proof {
            let deni = den as int;
            let wi = wacc as int;
            assert(3 * b.min_x as int * wi == b.min_x as int * deni) by (nonlinear_arith)
                requires
                    deni == 3 * wi,
            ;
            assert(3 * b.max_x as int * wi == b.max_x as int * deni) by (nonlinear_arith)
                requires
                    deni == 3 * wi,
            ;
            assert(3 * b.min_y as int * wi == b.min_y as int * deni) by (nonlinear_arith)
                requires
                    deni == 3 * wi,
            ;
            assert(3 * b.max_y as int * wi == b.max_y as int * deni) by (nonlinear_arith)
                requires
                    deni == 3 * wi,
            ;
            lemma_tdiv_bounds(nx as int, deni, b.min_x as int, b.max_x as int);
            lemma_tdiv_bounds(ny as int, deni, b.min_y as int, b.max_y as int);
        }
        PlanarPoint { x: qx as i64, y: qy as i64 }
    } else {
        let cx = (b.min_x + b.max_x) / 2;
        let cy = (b.min_y + b.max_y) / 2;
        PlanarPoint { x: cx, y: cy }
    }
}

/// Split every triangle of `tris` until no edge's squared planar length
/// exceeds `maxima_sq`: each step splits a too-long triangle at the rounded
/// midpoint of its longest edge (appended to `points`) and requeues both
/// halves. A fragment that would need more than [`SUBDIVISION_BUDGET`]
/// splits is discarded, which keeps the guarantee unconditional. The result
/// is exactly the worklist fixed point [`subdivide_rec`] of the seeded
/// triangles.
#[verifier::rlimit(100)]
#[verifier::spinoff_prover]
pub fn subdivide_triangles(points: &mut Vec<PlanarPoint>, tris: &Vec<usize>, maxima_sq: i64) -> (out:
    Vec<usize>)
    requires
        all_in_range(old(points)@),
        tris@.len() % 3 == 0,
        indices_below(tris@, old(points)@.len() as int),
        maxima_sq >= 1,
    ensures
        (final(points)@, out@) == subdivide_rec(
            old(points)@,
            seed_spec(tris@),
            maxima_sq as int,
        ),
        all_in_range(final(points)@),
        final(points)@.len() >= old(points)@.len(),
        forall|i: int|
            0 <= i < old(points)@.len() ==> final(points)@[i] == old(points)@[i],
        out@.len() % 3 == 0,
        indices_below(out@, final(points)@.len() as int),
        forall|k: int|
            0 <= k < out@.len() / 3 ==> #[trigger] triangle_within(
                final(points)@,
                out@,
                k,
                maxima_sq as int,
            ),
{
    let ghost orig_points: Seq<PlanarPoint> = points@;
    let mut stack: Vec<Tri> = Vec::new();
    let mut k: usize = 0;
    while k < tris.len()
        invariant
            tris@.len() % 3 == 0,
            k % 3 == 0,
            k <= tris@.len(),
            indices_below(tris@, points@.len() as int),
            stack@ == seed_spec(tris@).subrange(0, k as int / 3),
            forall|i: int|
                0 <= i < stack@.len() ==> (#[trigger] stack@[i]).a < points@.len()
                    && stack@[i].b < points@.len() && stack@[i].c < points@.len(),
        decreases tris@.len() - k,
    {
        let ghost pre = stack@;
        stack.push(Tri { a: tris[k], b: tris[k + 1], c: tris[k + 2], budget: SUBDIVISION_BUDGET });
        proof {
            assert(seed_spec(tris@)[k as int / 3] == (Tri {
                a: tris@[3 * (k as int / 3)],
                b: tris@[3 * (k as int / 3) + 1],
                c: tris@[3 * (k as int / 3) + 2],
                budget: SUBDIVISION_BUDGET,
            }));
            assert(stack@ =~= seed_spec(tris@).subrange(0, k as int / 3 + 1));
        }
        k = k + 3;
    }
    proof {
        assert(stack@ =~= seed_spec(tris@));
    }
    let ghost seed: Seq<Tri> = stack@;
    let ghost m: int = maxima_sq as int;
    let mut out: Vec<usize> = Vec::new();
    proof {
        assert(Seq::<usize>::empty() + subdivide_rec(points@, stack@, m).1 =~= subdivide_rec(
            points@,
            stack@,
            m,
        ).1);
    }
    while stack.len() > 0
        invariant
            maxima_sq >= 1,
            m == maxima_sq as int,
            orig_points == old(points)@,
            seed == seed_spec(tris@),
            all_in_range(points@),
            points@.len() >= orig_points.len(),
            forall|i: int| 0 <= i < orig_points.len() ==> points@[i] == orig_points[i],
            forall|i: int|
                0 <= i < stack@.len() ==> (#[trigger] stack@[i]).a < points@.len()
                    && stack@[i].b < points@.len() && stack@[i].c < points@.len(),
            subdivide_rec(orig_points, seed, m).0 == subdivide_rec(points@, stack@, m).0,
            subdivide_rec(orig_points, seed, m).1 == out@ + subdivide_rec(points@, stack@, m).1,
            out@.len() % 3 == 0,
            indices_below(out@, points@.len() as int),
            forall|k2: int|
                0 <= k2 < out@.len() / 3 ==> #[trigger] triangle_within(
                    points@,
                    out@,
                    k2,
                    maxima_sq as int,
                ),
        decreases stack_measure(stack@),
    {
        let ghost stack_before = stack@;
        let t = stack.pop().unwrap();
        proof {
            assert(stack_before.drop_last() =~= stack@);
            lemma_pow4_pos(t.budget as nat);
        }
        let pa = points[t.a];
        let pb = points[t.b];
        let pc = points[t.c];
        let ab_sq = dist_sq(pa, pb);
        let bc_sq = dist_sq(pb, pc);
        let ca_sq = dist_sq(pc, pa);
        // The strictly longest edge wins the split; ties fall through in a
        // fixed order, so the choice is deterministic.
        let split: Option<(PlanarPoint, [usize; 3], [usize; 3])> = if ab_sq > bc_sq && ab_sq
            > maxima_sq {
            if ab_sq > ca_sq {
                let d_idx = points.len();
                Some((midpoint(pa, pb), [t.a, d_idx, t.c], [t.b, t.c, d_idx]))
            } else {
                let d_idx = points.len();
                Some((midpoint(pc, pa), [t.a, t.b, d_idx], [t.b, t.c, d_idx]))
            }
        } else if bc_sq > ca_sq && bc_sq > maxima_sq {
            let d_idx = points.len();
            Some((midpoint(pb, pc), [t.a, t.b, d_idx], [t.a, d_idx, t.c]))
        } else if ca_sq > maxima_sq {
            let d_idx = points.len();
            Some((midpoint(pc, pa), [t.a, t.b, d_idx], [t.b, t.c, d_idx]))
        } else {
            None
        };
        let ghost pre_points: Seq<PlanarPoint> = points@;
        match split {
            None => {
                // All edges are within the threshold: emit the triangle.
                let ghost out_before = out@;
                out.push(t.a);
                out.push(t.b);
                out.push(t.c);
                proof {
                    reveal(subdivide_rec);
                    let r_rest = subdivide_rec(points@, stack@, m);
                    assert(subdivide_rec(points@, stack_before, m) == (
                        r_rest.0,
                        seq![t.a, t.b, t.c] + r_rest.1,
                    ));
                    assert(out@ =~= out_before.push(t.a).push(t.b).push(t.c));
                    assert(out_before + (seq![t.a, t.b, t.c] + r_rest.1) =~= out@ + r_rest.1);
                    assert forall|k2: int| 0 <= k2 < out@.len() / 3 implies #[trigger] triangle_within(
                        points@,
                        out@,
                        k2,
                        maxima_sq as int,
                    ) by {
                        if k2 < out_before.len() / 3 {
                            assert(triangle_within(points@, out_before, k2, maxima_sq as int));
                            assert(out@[3 * k2] == out_before[3 * k2]);
                            assert(out@[3 * k2 + 1] == out_before[3 * k2 + 1]);
                            assert(out@[3 * k2 + 2] == out_before[3 * k2 + 2]);
                        } else {
                            assert(3 * k2 == out_before.len());
                            assert(out@[3 * k2] == t.a);
                            assert(out@[3 * k2 + 1] == t.b);
                            assert(out@[3 * k2 + 2] == t.c);
                        }
                    }
                }
            },
            Some((d, fst, snd)) => {
                if t.budget > 0 {
                    let ghost points_before = points@;
                    let ghost stack_mid = stack@;
                    points.push(d);
                    proof {
                        assert forall|k2: int| 0 <= k2 < out@.len() / 3 implies #[trigger] triangle_within(
                            points@,
                            out@,
                            k2,
                            maxima_sq as int,
                        ) by {
                            assert(triangle_within(points_before, out@, k2, maxima_sq as int));
                            assert(points@[out@[3 * k2] as int] == points_before[out@[3 * k2] as int]);
                            assert(points@[out@[3 * k2 + 1] as int] == points_before[out@[3 * k2
                                + 1] as int]);
                            assert(points@[out@[3 * k2 + 2] as int] == points_before[out@[3 * k2
                                + 2] as int]);
                        }
                    }
                    let nb = t.budget - 1;
                    stack.push(Tri { a: fst[0], b: fst[1], c: fst[2], budget: nb });
                    stack.push(Tri { a: snd[0], b: snd[1], c: snd[2], budget: nb });
                    proof {
                        lemma_stack_push(stack_mid, Tri { a: fst[0], b: fst[1], c: fst[2], budget: nb });
                        lemma_stack_push(
                            stack_mid.push(Tri { a: fst[0], b: fst[1], c: fst[2], budget: nb }),
                            Tri { a: snd[0], b: snd[1], c: snd[2], budget: nb },
                        );
                        assert(pow4(t.budget as nat) == 4 * pow4(nb as nat));
                        lemma_pow4_pos(nb as nat);
                        reveal(subdivide_rec);
                        assert(points@ =~= points_before.push(d));
                        assert(stack@ =~= stack_mid.push(
                            Tri { a: fst[0], b: fst[1], c: fst[2], budget: nb },
                        ).push(Tri { a: snd[0], b: snd[1], c: snd[2], budget: nb }));
                        assert(subdivide_rec(points_before, stack_before, m) == subdivide_rec(
                            points@,
                            stack@,
                            m,
                        ));
                    }
                } else {
                    proof {
                        reveal(subdivide_rec);
                        assert(subdivide_rec(points@, stack_before, m) == subdivide_rec(
                            points@,
                            stack@,
                            m,
                        ));
                    }
                }
                // A fragment out of budget is discarded.
            },
        }
    }
    proof {
        reveal(subdivide_rec);
        assert(subdivide_rec(points@, stack@, m) == (points@, Seq::<usize>::empty()));
        assert(out@ + Seq::<usize>::empty() =~= out@);
    }
    out
}

proof fn lemma_ring_offset_nondecreasing(rings: Seq<Seq<PlanarPoint>>, j: int, k: int)
    requires
        0 <= j <= k,
    ensures
        ring_offset(rings, j) <= ring_offset(rings, k),
    decreases k - j,
{
    if j < k {
        lemma_ring_offset_nondecreasing(rings, j, k - 1);
    }
}

/// The value of a polygon's tessellation, for specification purposes.
pub struct PolygonTessView {
    pub points: Seq<PlanarPoint>,
    pub triangles: Seq<usize>,
    pub bounds: PlanarBounds,
    pub centroid: PlanarPoint,
}

/// What tessellating a ring list yields, as a function: the degenerate-ring
/// check, the named triangulation, the subdivision fixed point, the bounds
/// fold and the centroid, composed exactly as the tessellator runs them.
#[verifier::opaque]
pub open spec fn tessellate_spec(rings: Seq<Seq<PlanarPoint>>, maxima_sq: int) -> Result<
    PolygonTessView,
    GeometryError,
> {
    if rings.len() == 0 || rings[0].len() < 3 {
        Result::Err(GeometryError::DegenerateOuterRing)
    } else {
        let flat = flat_points(rings);
        match earcut_of(interleave_spec(flat), holes_spec(rings)) {
            Result::Err(_) => Result::Err(GeometryError::Triangulation),
            Result::Ok(raw) => {
                if raw.len() > 0x1_0000_0000 {
                    Result::Err(GeometryError::Triangulation)
                } else {
                    let r = subdivide_rec(flat, seed_spec(raw), maxima_sq);
                    let b = bounds_fold(r.0, r.0.len() as int);
                    let hs = if rings.len() > 1 {
                        ring_offset(rings, 1)
                    } else {
                        flat.len() as int
                    };
                    Result::Ok(
                        PolygonTessView {
                            points: r.0,
                            triangles: r.1,
                            bounds: b,
                            centroid: centroid_spec(r.0, raw, hs, b),
                        },
                    )
                }
            },
        }
    }
}

/// The tessellation of one polygon: the flattened input points followed by
/// the subdivision midpoints, the subdivided triangle index triples, the
/// planar bounding box of all of it, and the area-weighted centroid.
pub struct PolygonTess {
    pub points: Vec<PlanarPoint>,
    pub triangles: Vec<usize>,
    pub bounds: PlanarBounds,
    pub centroid: PlanarPoint,
}

/// Tessellate one polygon: triangulate the flattened rings, subdivide every
/// triangle until each planar edge's squared length is at most `maxima_sq`,
/// and compute the planar bounding box and area-weighted centroid (counting
/// only triangles that touch no hole vertex). A polygon whose outer ring has
/// fewer than three points is reported as degenerate, exactly then; a ring
/// set the named triangulation rejects (or one past the 32-bit index cap) is
/// reported as a triangulation error, exactly then; any other polygon comes
/// back `Ok`, equal to [`tessellate_spec`] of its rings.
#[verifier::rlimit(100)]
#[verifier::spinoff_prover]
pub fn tessellate_polygon(poly: &Polygon, maxima_sq: i64) -> (r: Result<PolygonTess, GeometryError>)
    requires
        poly.in_range(),
        maxima_sq >= 1,
    ensures
        ({
            let se = tessellate_spec(rings_view(poly), maxima_sq as int);
            match r {
                Result::Ok(t) => se is Ok && t.points@ == se->Ok_0.points && t.triangles@
                    == se->Ok_0.triangles && t.bounds == se->Ok_0.bounds && t.centroid
                    == se->Ok_0.centroid,
                Result::Err(e) => se is Err && e == se->Err_0,
            }
        }),
        (r is Err && r->Err_0 == GeometryError::DegenerateOuterRing) <==> (rings_view(poly).len()
            == 0 || rings_view(poly)[0].len() < 3),
        r is Ok ==> ({
            let t = r->Ok_0;
            &&& all_in_range(t.points@)
            &&& t.points@.len() > 0
            &&& flat_points(rings_view(poly)).is_prefix_of(t.points@)
            &&& t.triangles@.len() % 3 == 0
            &&& indices_below(t.triangles@, t.points@.len() as int)
            &&& (forall|k: int|
                0 <= k < t.triangles@.len() / 3 ==> #[trigger] triangle_within(
                    t.points@,
                    t.triangles@,
                    k,
                    maxima_sq as int,
                ))
            &&& (forall|i: int|
                0 <= i < t.points@.len() ==> t.bounds.contains(#[trigger] t.points@[i]))
            &&& t.bounds.contains(t.centroid)
            &&& t.centroid.in_range()
            &&& t.bounds.in_range()
        }),
{
    let ghost rings: Seq<Seq<PlanarPoint>> = rings_view(poly);
    let ghost m: int = maxima_sq as int;
    if poly.rings.len() == 0 {
        proof {
            reveal(tessellate_spec);
        }
        return Err(GeometryError::DegenerateOuterRing);
    }
    if poly.rings[0].len() < 3 {
        proof {
            reveal(tessellate_spec);
            assert(rings[0] == poly.rings@[0]@);
        }
        return Err(GeometryError::DegenerateOuterRing);
    }
    let (mut points, holes) = flatten_polygon(poly);
    proof {
        lemma_ring_offset_nondecreasing(rings, 1, rings.len() as int);
        assert(ring_offset(rings, 0) == 0);
        assert(ring_offset(rings, 1) == rings[0].len());
        assert(rings[0] == poly.rings@[0]@);
        assert(points@.len() >= 3);
    }
    let coords = interleave_coords(&points);
    let ghost flat: Seq<PlanarPoint> = points@;
    proof {
        assert(coords@ == interleave_spec(flat_points(rings)));
        assert(holes@ == holes_spec(rings));
    }
    let raw = match earcut_triangulate(&coords, &holes) {
        Ok(t) => t,
        Err(_) => {
            proof {
                reveal(tessellate_spec);
                assert(earcut_of(interleave_spec(flat_points(rings)), holes_spec(rings)) is Err);
            }
            return Err(GeometryError::Triangulation);
        },
    };
    proof {
        assert(raw@ == earcut_of(interleave_spec(flat_points(rings)), holes_spec(rings))->Ok_0);
    }
    if raw.len() as u64 > 0x1_0000_0000u64 {
        // Far beyond any real dataset; keeps the centroid accumulators in
        // provable range.
        proof {
            reveal(tessellate_spec);
        }
        return Err(GeometryError::Triangulation);
    }
    let hole_start: usize = if holes.len() > 0 {
        holes[0]
    } else {
        points.len()
    };
    proof {
        assert(hole_start as int == if rings.len() > 1 {
            ring_offset(rings, 1)
        } else {
            flat.len() as int
        });
    }
    let triangles = subdivide_triangles(&mut points, &raw, maxima_sq);
    let bounds = compute_bounds(&points);
    proof {
        assert(indices_below(raw@, points@.len() as int));
    }
    let centroid = polygon_centroid(&points, &raw, hole_start, bounds);
    proof {
        assert(flat.is_prefix_of(points@));
        reveal(tessellate_spec);
        assert((points@, triangles@) == subdivide_rec(
            flat_points(rings),
            seed_spec(raw@),
            m,
        ));
        assert(tessellate_spec(rings, m) == Result::<PolygonTessView, GeometryError>::Ok(
            PolygonTessView {
                points: points@,
                triangles: triangles@,
                bounds: bounds,
                centroid: centroid,
            },
        ));
    }
    Ok(PolygonTess { points, triangles, bounds, centroid })
}

} // verus!
