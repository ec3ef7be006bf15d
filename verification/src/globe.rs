//! The base globe mesh.
//!
//! A unit sphere of `slices` meridians and `stacks` parallels, scaled by the
//! globe radius: one north-pole vertex, `stacks - 1` rings of `slices`
//! vertices, one south-pole vertex; triangle fans around both poles and two
//! triangles per quad in between. Every emitted index is proven to point at
//! a real vertex, so the renderer can draw the buffers blindly.
use vstd::prelude::*;

use crate::num::{FP_ONE, tdiv, fp_mul_unit, fp_scale};
use crate::sphere::{Vec3Fixed, WORLD_LIMIT};
use crate::trig::{sin_cos_udeg, sin_udeg_spec, cos_udeg_spec};

verus! {

/// One globe vertex: a position on the sphere.
#[derive(Clone, Copy, Debug, PartialEq, Eq, Structural)]
pub struct GlobeVertex {
    pub pos: Vec3Fixed,
}

/// Vertex `k` of the sphere mesh: the north pole, then `stacks - 1` rings
/// of `slices` vertices at evenly spaced angles, then the south pole.
#[verifier::opaque]
pub open spec fn globe_vertex_spec(k: int, slices: int, stacks: int, radius: int) -> GlobeVertex {
    if k == 0 {
        GlobeVertex { pos: Vec3Fixed { x: 0, y: radius as i64, z: 0 } }
    } else if k == (stacks - 1) * slices + 1 {
        GlobeVertex { pos: Vec3Fixed { x: 0, y: (-radius) as i64, z: 0 } }
    } else {
        let i = (k - 1) / slices;
        let j = (k - 1) % slices;
        let phi = 180_000_000 * (i + 1) / stacks;
        let theta = 360_000_000 * j / slices;
        let sphi = sin_udeg_spec(phi);
        let cphi = cos_udeg_spec(phi);
        let stheta = sin_udeg_spec(theta);
        let ctheta = cos_udeg_spec(theta);
        GlobeVertex {
            pos: Vec3Fixed {
                x: tdiv(tdiv(sphi * ctheta, FP_ONE as int) * radius, FP_ONE as int) as i64,
                y: tdiv(cphi * radius, FP_ONE as int) as i64,
                z: tdiv(tdiv(sphi * stheta, FP_ONE as int) * radius, FP_ONE as int) as i64,
            },
        }
    }
}

/// A globe mesh: vertices and a flat triangle index list.
pub struct GlobeGeometry {
    pub vertices: Vec<GlobeVertex>,
    pub indices: Vec<u32>,
}

/// Build the globe's sphere mesh. The vertex count is exactly
/// `(stacks - 1) * slices + 2` and every vertex is exactly
/// [`globe_vertex_spec`], all components within the radius; the index list
/// holds `6 * slices * (stacks - 1)` entries in triangles, and every index
/// points at a vertex.
#[verifier::rlimit(100)]
#[verifier::spinoff_prover]
pub fn build_globe_geometry(slices: u32, stacks: u32, globe_radius: i64) -> (g: GlobeGeometry)
    requires
        3 <= slices <= 1024,
        3 <= stacks <= 1024,
        0 < globe_radius <= WORLD_LIMIT,
    ensures
        g.vertices@.len() == (stacks - 1) * slices + 2,
        forall|k: int|
            0 <= k < g.vertices@.len() ==> #[trigger] g.vertices@[k] == globe_vertex_spec(
                k,
                slices as int,
                stacks as int,
                globe_radius as int,
            ),
        forall|k: int|
            0 <= k < g.vertices@.len() ==> (#[trigger] g.vertices@[k]).pos.in_world(),
        g.indices@.len() == 6 * slices * (stacks - 1),
        forall|k: int|
            0 <= k < g.indices@.len() ==> (#[trigger] g.indices@[k]) < g.vertices@.len(),
{
    let ghost vcount: int = (stacks - 1) as int * slices as int + 2;
    proof {
        crate::num::lemma_mul_abs_bound(
            (stacks - 1) as int,
            slices as int,
            1024,
            1024,
        );
    }
    let mut vertices: Vec<GlobeVertex> = Vec::new();
    vertices.push(GlobeVertex { pos: Vec3Fixed { x: 0, y: globe_radius, z: 0 } });
    proof {
        reveal(globe_vertex_spec);
    }
    let mut i: u32 = 0;
    while i < stacks - 1
        invariant
            3 <= slices <= 1024,
            3 <= stacks <= 1024,
            0 < globe_radius <= WORLD_LIMIT,
            0 <= i <= stacks - 1,
            vertices@.len() == 1 + i as int * slices as int,
            vertices@.len() <= (stacks - 1) as int * slices as int + 1,
            forall|k: int|
                0 <= k < vertices@.len() ==> #[trigger] vertices@[k] == globe_vertex_spec(
                    k,
                    slices as int,
                    stacks as int,
                    globe_radius as int,
                ),
            forall|k: int|
                0 <= k < vertices@.len() ==> (#[trigger] vertices@[k]).pos.in_world(),
        decreases stacks - 1 - i,
    {
        let phi: i64 = (180_000_000i64 * ((i + 1) as i64)) / (stacks as i64);
        let (sphi, cphi) = sin_cos_udeg(phi);
        let mut j: u32 = 0;
        while j < slices
            invariant
                3 <= slices <= 1024,
                3 <= stacks <= 1024,
                0 < globe_radius <= WORLD_LIMIT,
                0 <= i < stacks - 1,
                0 <= j <= slices,
                phi as int == 180_000_000 * (i as int + 1) / (stacks as int),
                sphi == sin_udeg_spec(phi as int),
                cphi == cos_udeg_spec(phi as int),
                -FP_ONE <= sphi <= FP_ONE,
                -FP_ONE <= cphi <= FP_ONE,
                vertices@.len() == 1 + i as int * slices as int + j as int,
                forall|k: int|
                    0 <= k < vertices@.len() ==> #[trigger] vertices@[k] == globe_vertex_spec(
                        k,
                        slices as int,
                        stacks as int,
                        globe_radius as int,
                    ),
                forall|k: int|
                    0 <= k < vertices@.len() ==> (#[trigger] vertices@[k]).pos.in_world(),
            decreases slices - j,
        {
            let theta: i64 = (360_000_000i64 * (j as i64)) / (slices as i64);
            let (stheta, ctheta) = sin_cos_udeg(theta);
            let pos = Vec3Fixed {
                x: fp_scale(fp_mul_unit(sphi, ctheta), globe_radius),
                y: fp_scale(cphi, globe_radius),
                z: fp_scale(fp_mul_unit(sphi, stheta), globe_radius),
            };
            proof {
                reveal(globe_vertex_spec);
                let k = vertices@.len() as int;
                vstd::arithmetic::div_mod::lemma_fundamental_div_mod_converse(
                    k - 1,
                    slices as int,
                    i as int,
                    j as int,
                );
                vstd::arithmetic::mul::lemma_mul_inequality(
                    i as int,
                    (stacks - 2) as int,
                    slices as int,
                );
                assert((stacks - 2) as int * slices as int + slices as int == (stacks - 1) as int
                    * slices as int) by (nonlinear_arith);
                assert(k != (stacks - 1) as int * slices as int + 1);
            }
            vertices.push(GlobeVertex { pos });
            j = j + 1;
        }
        proof {
            assert((i as int + 1) * slices as int == i as int * slices as int + slices as int)
                by (nonlinear_arith);
            vstd::arithmetic::mul::lemma_mul_inequality(
                i as int + 1,
                (stacks - 1) as int,
                slices as int,
            );
        }
        i = i + 1;
    }
    proof {
        reveal(globe_vertex_spec);
        assert(vertices@.len() == (stacks - 1) as int * slices as int + 1);
    }
    vertices.push(GlobeVertex { pos: Vec3Fixed { x: 0, y: -globe_radius, z: 0 } });
    proof {
        assert(vertices@.len() == vcount);
    }
    let last: u32 = ((stacks - 1) * slices + 2) - 1;
    let mut indices: Vec<u32> = Vec::new();
    let mut i: u32 = 0;
    while i < slices
        invariant
            3 <= slices <= 1024,
            3 <= stacks <= 1024,
            vcount == (stacks - 1) as int * slices as int + 2,
            last as int == vcount - 1,
            0 <= i <= slices,
            indices@.len() == 6 * i as int,
            forall|k: int| 0 <= k < indices@.len() ==> (#[trigger] indices@[k]) < vcount,
        decreases slices - i,
    {
        let i0: u32 = i + 1;
        let i1: u32 = (i0 % slices) + 1;
        indices.push(0);
        indices.push(i1);
        indices.push(i0);
        proof {
            assert(slices as int * (stacks - 2) as int + slices as int == (stacks - 1) as int
                * slices as int) by (nonlinear_arith);
            assert(slices as int * (stacks - 2) as int >= 0) by (nonlinear_arith)
                requires
                    slices as int >= 0,
                    (stacks - 2) as int >= 0,
            ;
        }
        let b0: u32 = i + slices * (stacks - 2) + 1;
        let b1: u32 = (i + 1) % slices + slices * (stacks - 2) + 1;
        indices.push(last);
        indices.push(b0);
        indices.push(b1);
        i = i + 1;
    }
    let mut j: u32 = 0;
    while j < stacks - 2
        invariant
            3 <= slices <= 1024,
            3 <= stacks <= 1024,
            vcount == (stacks - 1) as int * slices as int + 2,
            vcount <= 0x100_0002,
            0 <= j <= stacks - 2,
            indices@.len() == 6 * slices as int + 6 * (j as int * slices as int),
            forall|k: int| 0 <= k < indices@.len() ==> (#[trigger] indices@[k]) < vcount,
        decreases stacks - 2 - j,
    {
        proof {
            assert(j as int * slices as int <= 1022 * 1024) by (nonlinear_arith)
                requires
                    0 <= j as int <= 1022,
                    0 <= slices as int <= 1024,
            ;
            assert((j as int + 1) * slices as int == j as int * slices as int + slices as int)
                by (nonlinear_arith);
            assert((j as int + 1) * slices as int <= (stacks - 2) as int * slices as int)
                by (nonlinear_arith)
                requires
                    j as int + 1 <= (stacks - 2) as int,
                    slices as int >= 0,
            ;
            assert((stacks - 2) as int * slices as int + slices as int == (stacks - 1) as int
                * slices as int) by (nonlinear_arith);
        }
        let j0: u32 = j * slices + 1;
        let j1: u32 = (j + 1) * slices + 1;
        let mut i2: u32 = 0;
        while i2 < slices
            invariant
                3 <= slices <= 1024,
                3 <= stacks <= 1024,
                vcount == (stacks - 1) as int * slices as int + 2,
                vcount <= 0x100_0002,
                0 <= j < stacks - 2,
                j0 as int == j as int * slices as int + 1,
                j1 as int == (j as int + 1) * slices as int + 1,
                j0 as int + slices as int == j1 as int,
                1 <= j0 <= j1,
                j1 as int + slices as int <= vcount - 1,
                0 <= i2 <= slices,
                indices@.len() == 6 * slices as int + 6 * (j as int * slices as int) + 6 * i2 as int,
                forall|k: int| 0 <= k < indices@.len() ==> (#[trigger] indices@[k]) < vcount,
            decreases slices - i2,
        {
            let q0: u32 = j0 + i2;
            let q1: u32 = j0 + (i2 + 1) % slices;
            let q2: u32 = j1 + (i2 + 1) % slices;
            let q3: u32 = j1 + i2;
            indices.push(q3);
            indices.push(q0);
            indices.push(q1);
            indices.push(q1);
            indices.push(q2);
            indices.push(q3);
            i2 = i2 + 1;
        }
        j = j + 1;
    }
    proof {
        assert(6 * slices as int + 6 * ((stacks - 2) as int * slices as int) == 6 * slices as int
            * (stacks - 1) as int) by (nonlinear_arith);
    }
    GlobeGeometry { vertices, indices }
}

} // verus!
