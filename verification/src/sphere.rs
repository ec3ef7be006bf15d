//! Sphere projection and ray tests.
//!
//! World space carries 16 fractional bits: one world unit is 65536 fixed
//! units. Planar micro-degree coordinates are lifted onto the globe by the
//! fixed-point circular functions; visibility is decided by an integer
//! Moeller-Trumbore ray/triangle test capped to the visible hemisphere.
use vstd::prelude::*;

use crate::geo::PlanarPoint;
use crate::num::{FP_ONE, abs_int, tdiv, fp_mul_unit, fp_scale, lemma_mul_abs_bound,
    lemma_tdiv_abs_bound, isqrt_spec, isqrt_u128};
use crate::trig::{sin_udeg_spec, cos_udeg_spec, sin_cos_udeg};

verus! {

/// Largest admissible world coordinate magnitude (about 16384 world units).
pub const WORLD_LIMIT: i64 = 0x4000_0000;

/// Hits closer to the eye than this many fixed units (a tenth of a world
/// unit) are rejected, avoiding self-intersection at the near plane.
pub const NEAR_CLIP_FP: i64 = 6554;

/// Hits farther than this many fixed units are rejected outright; any such
/// hit is past every admissible hemisphere cutoff.
pub const DIST_CAP_FP: i64 = 0x1_0000_0000;

/// A world-space point or direction in 16-bit fixed point.
#[derive(Clone, Copy, Debug, PartialEq, Eq, Structural)]
pub struct Vec3Fixed {
    pub x: i64,
    pub y: i64,
    pub z: i64,
}

impl Vec3Fixed {
    /// All components within the world coordinate range.
    pub open spec fn in_world(&self) -> bool {
        -WORLD_LIMIT <= self.x <= WORLD_LIMIT && -WORLD_LIMIT <= self.y <= WORLD_LIMIT
            && -WORLD_LIMIT <= self.z <= WORLD_LIMIT
    }

    /// All components within the unit range: a direction vector.
    pub open spec fn is_direction(&self) -> bool {
        -FP_ONE <= self.x <= FP_ONE && -FP_ONE <= self.y <= FP_ONE && -FP_ONE <= self.z <= FP_ONE
    }
}

/// The spherical position a planar point maps to:
/// `radius * (cos(lat)cos(lon), sin(lat), cos(lat)sin(lon))`. Aligning a
/// basemap texture with this mapping is the rendering shell's concern.
#[verifier::opaque]
pub open spec fn lat_lon_to_vertex_spec(lat: int, lon: int, radius: int) -> Vec3Fixed {
    let slat = sin_udeg_spec(lat);
    let clat = cos_udeg_spec(lat);
    let slon = sin_udeg_spec(lon);
    let clon = cos_udeg_spec(lon);
    Vec3Fixed {
        x: tdiv(tdiv(clat * clon, FP_ONE as int) * radius, FP_ONE as int) as i64,
        y: tdiv(slat * radius, FP_ONE as int) as i64,
        z: tdiv(tdiv(clat * slon, FP_ONE as int) * radius, FP_ONE as int) as i64,
    }
}

/// Project a planar micro-degree point onto a sphere of the given radius
/// (in fixed world units). Every component's magnitude stays within the
/// radius.
pub fn lat_lon_to_vertex(pt: PlanarPoint, radius: i64) -> (v: Vec3Fixed)
    requires
        pt.in_range(),
        0 < radius <= WORLD_LIMIT,
    ensures
        v == lat_lon_to_vertex_spec(pt.y as int, pt.x as int, radius as int),
        v.in_world(),
        -radius <= v.x <= radius,
        -radius <= v.y <= radius,
        -radius <= v.z <= radius,
{
    proof {
        reveal(lat_lon_to_vertex_spec);
    }
    let lat = pt.y;
    let lon = pt.x;
    let (slat, clat) = sin_cos_udeg(lat);
    let (slon, clon) = sin_cos_udeg(lon);
    let xf = fp_mul_unit(clat, clon);
    let zf = fp_mul_unit(clat, slon);
    let x = fp_scale(xf, radius);
    let y = fp_scale(slat, radius);
    let z = fp_scale(zf, radius);
    Vec3Fixed { x, y, z }
}

/// One polygon's bounding quad lifted onto the sphere: four corners of the
/// planar box plus the area-weighted centroid, all at the same radius.
#[derive(Clone, Copy, Debug, PartialEq, Eq, Structural)]
pub struct BoundingBox {
    pub centroid: Vec3Fixed,
    pub tl: Vec3Fixed,
    pub tr: Vec3Fixed,
    pub bl: Vec3Fixed,
    pub br: Vec3Fixed,
}

/// The squared hemisphere visibility cutoff: the squared eye distance plus
/// the squared globe radius, in squared fixed units. A bounding-quad hit
/// farther than this lies on the globe's far side.
pub fn hemisphere_maxima_sq(eye: Vec3Fixed, globe_radius: i64) -> (r: i64)
    requires
        eye.in_world(),
        0 <= globe_radius <= WORLD_LIMIT,
    ensures
        r as int == eye.x * eye.x + eye.y * eye.y + eye.z * eye.z + globe_radius * globe_radius,
        r >= 0,
{
    proof {
        lemma_mul_abs_bound(eye.x as int, eye.x as int, WORLD_LIMIT as int, WORLD_LIMIT as int);
        lemma_mul_abs_bound(eye.y as int, eye.y as int, WORLD_LIMIT as int, WORLD_LIMIT as int);
        lemma_mul_abs_bound(eye.z as int, eye.z as int, WORLD_LIMIT as int, WORLD_LIMIT as int);
        lemma_mul_abs_bound(globe_radius as int, globe_radius as int, WORLD_LIMIT as int, WORLD_LIMIT as int);
        crate::num::lemma_sq_le(eye.x as int, WORLD_LIMIT as int);
        crate::num::lemma_sq_le(eye.y as int, WORLD_LIMIT as int);
        crate::num::lemma_sq_le(eye.z as int, WORLD_LIMIT as int);
        crate::num::lemma_sq_le(globe_radius as int, WORLD_LIMIT as int);
    }
    eye.x * eye.x + eye.y * eye.y + eye.z * eye.z + globe_radius * globe_radius
}

/// The integer Moeller-Trumbore test, exactly: `Some` holds the hit's
/// distance along the ray in fixed units; `None` is a miss. Backfacing and
/// degenerate triangles (determinant at most zero) miss; hits nearer than
/// the near clip, farther than the distance cap, or squared-farther than
/// `maxima_sq` miss.
#[verifier::opaque]
pub open spec fn intrs_spec(
    eye: Vec3Fixed,
    ray: Vec3Fixed,
    a: Vec3Fixed,
    b: Vec3Fixed,
    c: Vec3Fixed,
    maxima_sq: int,
) -> Option<int> {
    let e1x = b.x - a.x;
    let e1y = b.y - a.y;
    let e1z = b.z - a.z;
    let e2x = c.x - a.x;
    let e2y = c.y - a.y;
    let e2z = c.z - a.z;
    let px = ray.y * e2z - ray.z * e2y;
    let py = ray.z * e2x - ray.x * e2z;
    let pz = ray.x * e2y - ray.y * e2x;
    let det = e1x * px + e1y * py + e1z * pz;
    let tx = eye.x - a.x;
    let ty = eye.y - a.y;
    let tz = eye.z - a.z;
    let u = tx * px + ty * py + tz * pz;
    let qx = ty * e1z - tz * e1y;
    let qy = tz * e1x - tx * e1z;
    let qz = tx * e1y - ty * e1x;
    let v = ray.x * qx + ray.y * qy + ray.z * qz;
    if det <= 0 {
        None
    } else if u < 0 || u > det {
        None
    } else if v < 0 || u + v > det {
        None
    } else {
        let w = tdiv((e2x * qx + e2y * qy + e2z * qz) * FP_ONE as int, det);
        if w < NEAR_CLIP_FP as int || w > DIST_CAP_FP as int || w * w > maxima_sq {
            None
        } else {
            Some(w)
        }
    }
}

/// Ray/triangle intersection against one half of a bounding quad.
pub fn intrs(
    eye: Vec3Fixed,
    ray: Vec3Fixed,
    a: Vec3Fixed,
    b: Vec3Fixed,
    c: Vec3Fixed,
    maxima_sq: i64,
) -> (r: Option<i64>)
    requires
        eye.in_world(),
        ray.is_direction(),
        a.in_world(),
        b.in_world(),
        c.in_world(),
    ensures
        ({
            let s = intrs_spec(eye, ray, a, b, c, maxima_sq as int);
            match r {
                Some(w) => s == Some(w as int) && NEAR_CLIP_FP <= w <= DIST_CAP_FP && w as int * w
                    as int <= maxima_sq as int,
                None => s is None,
            }
        }),
{
    proof {
        reveal(intrs_spec);
    }
    let ghost wl: int = WORLD_LIMIT as int;
    let e1x: i64 = b.x - a.x;
    let e1y: i64 = b.y - a.y;
    let e1z: i64 = b.z - a.z;
    let e2x: i64 = c.x - a.x;
    let e2y: i64 = c.y - a.y;
    let e2z: i64 = c.z - a.z;
    let tx: i64 = eye.x - a.x;
    let ty: i64 = eye.y - a.y;
    let tz: i64 = eye.z - a.z;
    proof {
        lemma_mul_abs_bound(ray.y as int, e2z as int, FP_ONE as int, 2 * wl);
        lemma_mul_abs_bound(ray.z as int, e2y as int, FP_ONE as int, 2 * wl);
        lemma_mul_abs_bound(ray.z as int, e2x as int, FP_ONE as int, 2 * wl);
        lemma_mul_abs_bound(ray.x as int, e2z as int, FP_ONE as int, 2 * wl);
        lemma_mul_abs_bound(ray.x as int, e2y as int, FP_ONE as int, 2 * wl);
        lemma_mul_abs_bound(ray.y as int, e2x as int, FP_ONE as int, 2 * wl);
    }
    let px: i128 = (ray.y as i128) * (e2z as i128) - (ray.z as i128) * (e2y as i128);
    let py: i128 = (ray.z as i128) * (e2x as i128) - (ray.x as i128) * (e2z as i128);
    let pz: i128 = (ray.x as i128) * (e2y as i128) - (ray.y as i128) * (e2x as i128);
    proof {
        lemma_mul_abs_bound(e1x as int, px as int, 2 * wl, 0x1_0000_0000_0000);
        lemma_mul_abs_bound(e1y as int, py as int, 2 * wl, 0x1_0000_0000_0000);
        lemma_mul_abs_bound(e1z as int, pz as int, 2 * wl, 0x1_0000_0000_0000);
        lemma_mul_abs_bound(tx as int, px as int, 2 * wl, 0x1_0000_0000_0000);
        lemma_mul_abs_bound(ty as int, py as int, 2 * wl, 0x1_0000_0000_0000);
        lemma_mul_abs_bound(tz as int, pz as int, 2 * wl, 0x1_0000_0000_0000);
    }
    let det: i128 = (e1x as i128) * px + (e1y as i128) * py + (e1z as i128) * pz;
    let u: i128 = (tx as i128) * px + (ty as i128) * py + (tz as i128) * pz;
    proof {
        lemma_mul_abs_bound(ty as int, e1z as int, 2 * wl, 2 * wl);
        lemma_mul_abs_bound(tz as int, e1y as int, 2 * wl, 2 * wl);
        lemma_mul_abs_bound(tz as int, e1x as int, 2 * wl, 2 * wl);
        lemma_mul_abs_bound(tx as int, e1z as int, 2 * wl, 2 * wl);
        lemma_mul_abs_bound(tx as int, e1y as int, 2 * wl, 2 * wl);
        lemma_mul_abs_bound(ty as int, e1x as int, 2 * wl, 2 * wl);
    }
    let qx: i128 = (ty as i128) * (e1z as i128) - (tz as i128) * (e1y as i128);
    let qy: i128 = (tz as i128) * (e1x as i128) - (tx as i128) * (e1z as i128);
    let qz: i128 = (tx as i128) * (e1y as i128) - (ty as i128) * (e1x as i128);
    proof {
        lemma_mul_abs_bound(ray.x as int, qx as int, FP_ONE as int, 0x2_0000_0000_0000_0000);
        lemma_mul_abs_bound(ray.y as int, qy as int, FP_ONE as int, 0x2_0000_0000_0000_0000);
        lemma_mul_abs_bound(ray.z as int, qz as int, FP_ONE as int, 0x2_0000_0000_0000_0000);
        lemma_mul_abs_bound(e2x as int, qx as int, 2 * wl, 0x2_0000_0000_0000_0000);
        lemma_mul_abs_bound(e2y as int, qy as int, 2 * wl, 0x2_0000_0000_0000_0000);
        lemma_mul_abs_bound(e2z as int, qz as int, 2 * wl, 0x2_0000_0000_0000_0000);
    }
    let v: i128 = (ray.x as i128) * qx + (ray.y as i128) * qy + (ray.z as i128) * qz;
    if det <= 0 {
        return None;
    }
    if u < 0 || u > det {
        return None;
    }
    if v < 0 || u + v > det {
        return None;
    }
    let wnum: i128 = ((e2x as i128) * qx + (e2y as i128) * qy + (e2z as i128) * qz) * (
    FP_ONE as i128);
    let w: i128 = if wnum >= 0 {
        wnum / det
    } else {
        -((-wnum) / det)
    };
    if w < NEAR_CLIP_FP as i128 || w > DIST_CAP_FP as i128 {
        return None;
    }
    proof {
        lemma_mul_abs_bound(w as int, w as int, DIST_CAP_FP as int, DIST_CAP_FP as int);
    }
    if w * w > maxima_sq as i128 {
        return None;
    }
    Some(w as i64)
}

/// Largest admissible matrix entry magnitude.
pub const MAT_LIMIT: i64 = 0x1_0000_0000_0000;

/// Normalized device coordinates are clamped into this range (plus or minus
/// 256 screen widths), so screen-space areas stay within provable bounds.
pub const NDC_LIMIT: i64 = 0x100_0000;

/// One row of a fixed-point matrix.
#[derive(Clone, Copy, Debug, PartialEq, Eq, Structural)]
pub struct Vec4Fixed {
    pub x: i64,
    pub y: i64,
    pub z: i64,
    pub w: i64,
}

impl Vec4Fixed {
    /// All entries within the admissible matrix range.
    pub open spec fn in_mat_range(&self) -> bool {
        -MAT_LIMIT <= self.x <= MAT_LIMIT && -MAT_LIMIT <= self.y <= MAT_LIMIT && -MAT_LIMIT
            <= self.z <= MAT_LIMIT && -MAT_LIMIT <= self.w <= MAT_LIMIT
    }
}

/// A 4 by 4 fixed-point matrix, by rows.
#[derive(Clone, Copy, Debug, PartialEq, Eq, Structural)]
pub struct Mat4Fixed {
    pub r0: Vec4Fixed,
    pub r1: Vec4Fixed,
    pub r2: Vec4Fixed,
    pub r3: Vec4Fixed,
}

impl Mat4Fixed {
    /// All sixteen entries within the admissible matrix range.
    pub open spec fn in_range(&self) -> bool {
        self.r0.in_mat_range() && self.r1.in_mat_range() && self.r2.in_mat_range()
            && self.r3.in_mat_range()
    }
}

/// One row of a fixed-point matrix applied to a homogeneous vector.
pub open spec fn row_apply_spec(r: Vec4Fixed, x: int, y: int, z: int, w: int) -> int {
    tdiv(r.x * x + r.y * y + r.z * z + r.w * w, FP_ONE as int)
}

fn row_apply(r: &Vec4Fixed, x: i128, y: i128, z: i128, w: i128, Ghost(cap): Ghost<int>) -> (out:
    i128)
    requires
        r.in_mat_range(),
        0 < cap <= 0x40_0000_0000_0000_0000,
        -cap <= x as int <= cap,
        -cap <= y as int <= cap,
        -cap <= z as int <= cap,
        -cap <= w as int <= cap,
    ensures
        out as int == row_apply_spec(*r, x as int, y as int, z as int, w as int),
        -(cap * 0x4_0000_0000) <= out as int <= cap * 0x4_0000_0000,
{
    proof {
        lemma_mul_abs_bound(r.x as int, x as int, MAT_LIMIT as int, cap);
        lemma_mul_abs_bound(r.y as int, y as int, MAT_LIMIT as int, cap);
        lemma_mul_abs_bound(r.z as int, z as int, MAT_LIMIT as int, cap);
        lemma_mul_abs_bound(r.w as int, w as int, MAT_LIMIT as int, cap);
        assert(MAT_LIMIT as int * cap <= 0x40_0000_0000_0000_0000int * 0x1_0000_0000_0000)
            by (nonlinear_arith)
            requires
                0 < cap <= 0x40_0000_0000_0000_0000,
        ;
        assert((cap * 0x4_0000_0000) * FP_ONE as int == 4 * (MAT_LIMIT as int * cap))
            by (nonlinear_arith);
    }
    let s: i128 = (r.x as i128) * x + (r.y as i128) * y + (r.z as i128) * z + (r.w as i128) * w;
    proof {
        lemma_tdiv_abs_bound(s as int, FP_ONE as int, cap * 0x4_0000_0000);
    }
    if s >= 0 {
        s / (FP_ONE as i128)
    } else {
        -((-s) / (FP_ONE as i128))
    }
}

/// Clamp a fixed-point normalized device coordinate into range.
pub open spec fn clamp_ndc_spec(v: int) -> int {
    if v < -(NDC_LIMIT as int) {
        -(NDC_LIMIT as int)
    } else if v > NDC_LIMIT as int {
        NDC_LIMIT as int
    } else {
        v
    }
}

/// The standard clip-space transform with perspective divide, in fixed
/// point: `None` when the point lands behind (or exactly on) the camera
/// plane, else its clamped normalized device coordinates.
#[verifier::opaque]
pub open spec fn world_to_screen_spec(v: Vec3Fixed, view: Mat4Fixed, proj: Mat4Fixed) -> Option<
    (int, int),
> {
    let hx = row_apply_spec(view.r0, v.x as int, v.y as int, v.z as int, FP_ONE as int);
    let hy = row_apply_spec(view.r1, v.x as int, v.y as int, v.z as int, FP_ONE as int);
    let hz = row_apply_spec(view.r2, v.x as int, v.y as int, v.z as int, FP_ONE as int);
    let hw = row_apply_spec(view.r3, v.x as int, v.y as int, v.z as int, FP_ONE as int);
    let cx = row_apply_spec(proj.r0, hx, hy, hz, hw);
    let cy = row_apply_spec(proj.r1, hx, hy, hz, hw);
    let cw = row_apply_spec(proj.r3, hx, hy, hz, hw);
    if cw <= 0 {
        None
    } else {
        Some((clamp_ndc_spec(tdiv(cx * FP_ONE as int, cw)), clamp_ndc_spec(tdiv(cy * FP_ONE as int, cw))))
    }
}

/// Project a world point to fixed-point normalized device coordinates.
pub fn world_to_screen_space(v: Vec3Fixed, view: &Mat4Fixed, proj: &Mat4Fixed) -> (r: Option<
    (i64, i64),
>)
    requires
        v.in_world(),
        view.in_range(),
        proj.in_range(),
    ensures
        ({
            let s = world_to_screen_spec(v, *view, *proj);
            match r {
                Some(p) => s == Some((p.0 as int, p.1 as int)) && -NDC_LIMIT <= p.0 <= NDC_LIMIT
                    && -NDC_LIMIT <= p.1 <= NDC_LIMIT,
                None => s is None,
            }
        }),
{
    proof {
        reveal(world_to_screen_spec);
    }
    let hx = row_apply(&view.r0, v.x as i128, v.y as i128, v.z as i128, FP_ONE as i128, Ghost(0x8000_0000int));
    let hy = row_apply(&view.r1, v.x as i128, v.y as i128, v.z as i128, FP_ONE as i128, Ghost(0x8000_0000int));
    let hz = row_apply(&view.r2, v.x as i128, v.y as i128, v.z as i128, FP_ONE as i128, Ghost(0x8000_0000int));
    let hw = row_apply(&view.r3, v.x as i128, v.y as i128, v.z as i128, FP_ONE as i128, Ghost(0x8000_0000int));
    let cx = row_apply(&proj.r0, hx, hy, hz, hw, Ghost(0x2_0000_0000_0000_0000int));
    let cy = row_apply(&proj.r1, hx, hy, hz, hw, Ghost(0x2_0000_0000_0000_0000int));
    let cw = row_apply(&proj.r3, hx, hy, hz, hw, Ghost(0x2_0000_0000_0000_0000int));
    if cw <= 0 {
        return None;
    }
    let nx: i128 = cx * (FP_ONE as i128);
    let ny: i128 = cy * (FP_ONE as i128);
    let qx: i128 = if nx >= 0 {
        nx / cw
    } else {
        -((-nx) / cw)
    };
    let qy: i128 = if ny >= 0 {
        ny / cw
    } else {
        -((-ny) / cw)
    };
    let px: i64 = if qx < -(NDC_LIMIT as i128) {
        -NDC_LIMIT
    } else if qx > NDC_LIMIT as i128 {
        NDC_LIMIT
    } else {
        qx as i64
    };
    let py: i64 = if qy < -(NDC_LIMIT as i128) {
        -NDC_LIMIT
    } else if qy > NDC_LIMIT as i128 {
        NDC_LIMIT
    } else {
        qy as i64
    };
    Some((px, py))
}

/// Largest of three magnitudes.
pub open spec fn max3_abs(a: int, b: int, c: int) -> int {
    let aa = abs_int(a);
    let ab = abs_int(b);
    let ac = abs_int(c);
    if aa >= ab && aa >= ac {
        aa
    } else if ab >= ac {
        ab
    } else {
        ac
    }
}

/// The world-space ray through a screen point: the inverse projection is
/// applied to the near-plane point, the inverse view to the resulting
/// direction, and the direction is scaled down if huge and then normalized
/// to unit fixed-point length. `None` when the direction degenerates to
/// zero.
#[verifier::opaque]
pub open spec fn cursor_to_world_ray_spec(
    inv_view: Mat4Fixed,
    inv_proj: Mat4Fixed,
    ndc_x: int,
    ndc_y: int,
) -> Option<Vec3Fixed> {
    let ux = row_apply_spec(inv_proj.r0, ndc_x, ndc_y, -(FP_ONE as int), FP_ONE as int);
    let uy = row_apply_spec(inv_proj.r1, ndc_x, ndc_y, -(FP_ONE as int), FP_ONE as int);
    let dx = row_apply_spec(inv_view.r0, ux, uy, -(FP_ONE as int), 0);
    let dy = row_apply_spec(inv_view.r1, ux, uy, -(FP_ONE as int), 0);
    let dz = row_apply_spec(inv_view.r2, ux, uy, -(FP_ONE as int), 0);
    let m = max3_abs(dx, dy, dz);
    if m == 0 {
        None
    } else {
        let div = m / 0x4_0000_0000_0000 + 1;
        let sx = tdiv(dx, div);
        let sy = tdiv(dy, div);
        let sz = tdiv(dz, div);
        let len2 = sx * sx + sy * sy + sz * sz;
        if len2 == 0 {
            None
        } else {
            let len = isqrt_spec(len2 as nat) as int;
            Some(
                Vec3Fixed {
                    x: tdiv(sx * FP_ONE as int, len) as i64,
                    y: tdiv(sy * FP_ONE as int, len) as i64,
                    z: tdiv(sz * FP_ONE as int, len) as i64,
                },
            )
        }
    }
}

/// Cast the world-space ray through a screen point.
#[verifier::rlimit(100)]
pub fn cursor_to_world_ray(inv_view: &Mat4Fixed, inv_proj: &Mat4Fixed, ndc_x: i64, ndc_y: i64) -> (r:
    Option<Vec3Fixed>)
    requires
        inv_view.in_range(),
        inv_proj.in_range(),
        -NDC_LIMIT <= ndc_x <= NDC_LIMIT,
        -NDC_LIMIT <= ndc_y <= NDC_LIMIT,
    ensures
        r == cursor_to_world_ray_spec(*inv_view, *inv_proj, ndc_x as int, ndc_y as int),
        r is Some ==> (r->Some_0).is_direction(),
{
    proof {
        reveal(cursor_to_world_ray_spec);
    }
    let ux = row_apply(&inv_proj.r0, ndc_x as i128, ndc_y as i128, -(FP_ONE as i128), FP_ONE as i128, Ghost(0x100_0000int));
    let uy = row_apply(&inv_proj.r1, ndc_x as i128, ndc_y as i128, -(FP_ONE as i128), FP_ONE as i128, Ghost(0x100_0000int));
    let dx = row_apply(&inv_view.r0, ux, uy, -(FP_ONE as i128), 0, Ghost(0x4_0000_0000_0000_0000int));
    let dy = row_apply(&inv_view.r1, ux, uy, -(FP_ONE as i128), 0, Ghost(0x4_0000_0000_0000_0000int));
    let dz = row_apply(&inv_view.r2, ux, uy, -(FP_ONE as i128), 0, Ghost(0x4_0000_0000_0000_0000int));
    let adx: i128 = if dx >= 0 {
        dx
    } else {
        -dx
    };
    let ady: i128 = if dy >= 0 {
        dy
    } else {
        -dy
    };
    let adz: i128 = if dz >= 0 {
        dz
    } else {
        -dz
    };
    let mut m: i128 = adx;
    if ady > m {
        m = ady;
    }
    if adz > m {
        m = adz;
    }
    if m == 0 {
        return None;
    }
    let div: i128 = m / 0x4_0000_0000_0000 + 1;
    proof {
        vstd::arithmetic::div_mod::lemma_fundamental_div_mod(m as int, 0x4_0000_0000_0000);
        assert((m as int / 0x4_0000_0000_0000 + 1) * 0x4_0000_0000_0000 == (m as int
            / 0x4_0000_0000_0000) * 0x4_0000_0000_0000 + 0x4_0000_0000_0000) by (nonlinear_arith);
        lemma_tdiv_abs_bound(dx as int, div as int, 0x4_0000_0000_0000);
        lemma_tdiv_abs_bound(dy as int, div as int, 0x4_0000_0000_0000);
        lemma_tdiv_abs_bound(dz as int, div as int, 0x4_0000_0000_0000);
    }
    let sx: i128 = if dx >= 0 {
        dx / div
    } else {
        -((-dx) / div)
    };
    let sy: i128 = if dy >= 0 {
        dy / div
    } else {
        -((-dy) / div)
    };
    let sz: i128 = if dz >= 0 {
        dz / div
    } else {
        -((-dz) / div)
    };
    proof {
        lemma_mul_abs_bound(sx as int, sx as int, 0x4_0000_0000_0000, 0x4_0000_0000_0000);
        lemma_mul_abs_bound(sy as int, sy as int, 0x4_0000_0000_0000, 0x4_0000_0000_0000);
        lemma_mul_abs_bound(sz as int, sz as int, 0x4_0000_0000_0000, 0x4_0000_0000_0000);
        crate::num::lemma_sq_le(sx as int, 0x4_0000_0000_0000);
        crate::num::lemma_sq_le(sy as int, 0x4_0000_0000_0000);
        crate::num::lemma_sq_le(sz as int, 0x4_0000_0000_0000);
    }
    let len2: i128 = sx * sx + sy * sy + sz * sz;
    if len2 == 0 {
        return None;
    }
    let len: i128 = isqrt_u128(len2 as u128) as i128;
    proof {
        let l = len as int;
        let n2 = len2 as int;
        assert(len2 as u128 as int == n2);
        assert(l * l <= n2 && n2 < (l + 1) * (l + 1));
        assert(l >= 1) by (nonlinear_arith)
            requires
                l >= 0,
                l * l <= n2,
                n2 < (l + 1) * (l + 1),
                n2 >= 1,
        ;
        lemma_abs_le_sqrt(sx as int, sy as int, sz as int, l);
        lemma_mul_abs_bound(sx as int, FP_ONE as int, l, FP_ONE as int);
        lemma_mul_abs_bound(sy as int, FP_ONE as int, l, FP_ONE as int);
        lemma_mul_abs_bound(sz as int, FP_ONE as int, l, FP_ONE as int);
        assert(l * FP_ONE as int == FP_ONE as int * l) by (nonlinear_arith);
        lemma_tdiv_abs_bound(sx as int * FP_ONE as int, l, FP_ONE as int);
        lemma_tdiv_abs_bound(sy as int * FP_ONE as int, l, FP_ONE as int);
        lemma_tdiv_abs_bound(sz as int * FP_ONE as int, l, FP_ONE as int);
    }
    let rx: i128 = {
        let n = sx * (FP_ONE as i128);
        if n >= 0 {
            n / len
        } else {
            -((-n) / len)
        }
    };
    let ry: i128 = {
        let n = sy * (FP_ONE as i128);
        if n >= 0 {
            n / len
        } else {
            -((-n) / len)
        }
    };
    let rz: i128 = {
        let n = sz * (FP_ONE as i128);
        if n >= 0 {
            n / len
        } else {
            -((-n) / len)
        }
    };
    Some(Vec3Fixed { x: rx as i64, y: ry as i64, z: rz as i64 })
}

/// Each component's magnitude is at most the vector's integer length.
proof fn lemma_abs_le_sqrt(x: int, y: int, z: int, l: int)
    requires
        l >= 0,
        l * l <= x * x + y * y + z * z,
        x * x + y * y + z * z < (l + 1) * (l + 1),
    ensures
        -l <= x <= l,
        -l <= y <= l,
        -l <= z <= l,
{
    assert(-l <= x <= l && -l <= y <= l && -l <= z <= l) by (nonlinear_arith)
        requires
            l >= 0,
            x * x + y * y + z * z < (l + 1) * (l + 1),
    ;
}

/// The unit direction of a vector, or `None` for the zero vector.
pub open spec fn normalize_dir_spec(x: int, y: int, z: int) -> Option<Vec3Fixed> {
    let len2 = x * x + y * y + z * z;
    if len2 == 0 {
        Option::None
    } else {
        let len = isqrt_spec(len2 as nat) as int;
        Option::Some(
            Vec3Fixed {
                x: tdiv(x * FP_ONE as int, len) as i64,
                y: tdiv(y * FP_ONE as int, len) as i64,
                z: tdiv(z * FP_ONE as int, len) as i64,
            },
        )
    }
}

/// Normalize a vector to unit fixed-point length.
pub fn normalize_dir(x: i64, y: i64, z: i64) -> (r: Option<Vec3Fixed>)
    requires
        -0x100_0000_0000 <= x <= 0x100_0000_0000,
        -0x100_0000_0000 <= y <= 0x100_0000_0000,
        -0x100_0000_0000 <= z <= 0x100_0000_0000,
    ensures
        r == normalize_dir_spec(x as int, y as int, z as int),
        r is Some ==> (r->Some_0).is_direction(),
{
    proof {
        crate::num::lemma_sq_le(x as int, 0x100_0000_0000);
        crate::num::lemma_sq_le(y as int, 0x100_0000_0000);
        crate::num::lemma_sq_le(z as int, 0x100_0000_0000);
    }
    let len2: i128 = (x as i128) * (x as i128) + (y as i128) * (y as i128) + (z as i128) * (
    z as i128);
    if len2 == 0 {
        return None;
    }
    let len: i128 = isqrt_u128(len2 as u128) as i128;
    proof {
        let l = len as int;
        let n2 = len2 as int;
        assert(len2 as u128 as int == n2);
        assert(l >= 1) by (nonlinear_arith)
            requires
                l >= 0,
                l * l <= n2,
                n2 < (l + 1) * (l + 1),
                n2 >= 1,
        ;
        lemma_abs_le_sqrt(x as int, y as int, z as int, l);
        lemma_mul_abs_bound(x as int, FP_ONE as int, l, FP_ONE as int);
        lemma_mul_abs_bound(y as int, FP_ONE as int, l, FP_ONE as int);
        lemma_mul_abs_bound(z as int, FP_ONE as int, l, FP_ONE as int);
        assert(l * FP_ONE as int == FP_ONE as int * l) by (nonlinear_arith);
        lemma_tdiv_abs_bound(x as int * FP_ONE as int, l, FP_ONE as int);
        lemma_tdiv_abs_bound(y as int * FP_ONE as int, l, FP_ONE as int);
        lemma_tdiv_abs_bound(z as int * FP_ONE as int, l, FP_ONE as int);
    }
    let rx: i128 = {
        let n = (x as i128) * (FP_ONE as i128);
        if n >= 0 {
            n / len
        } else {
            -((-n) / len)
        }
    };
    let ry: i128 = {
        let n = (y as i128) * (FP_ONE as i128);
        if n >= 0 {
            n / len
        } else {
            -((-n) / len)
        }
    };
    let rz: i128 = {
        let n = (z as i128) * (FP_ONE as i128);
        if n >= 0 {
            n / len
        } else {
            -((-n) / len)
        }
    };
    Some(Vec3Fixed { x: rx as i64, y: ry as i64, z: rz as i64 })
}

/// Law: the hemisphere cutoff is honored. Whatever the ray and quad, a
/// registered hit's squared distance never exceeds the cutoff, so geometry
/// on the globe's far side can never become visible.
pub proof fn lemma_hemisphere_culling(
    eye: Vec3Fixed,
    ray: Vec3Fixed,
    a: Vec3Fixed,
    b: Vec3Fixed,
    c: Vec3Fixed,
    maxima_sq: int,
)
    ensures
        intrs_spec(eye, ray, a, b, c, maxima_sq) is Some ==> {
            let w = intrs_spec(eye, ray, a, b, c, maxima_sq)->Some_0;
            w * w <= maxima_sq && NEAR_CLIP_FP <= w <= DIST_CAP_FP
        },
{
    reveal(intrs_spec);
}

} // verus!
