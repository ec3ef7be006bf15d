//! Feature mesh assembly.
//!
//! Runs the whole feature pipeline: keep the features whose `NAME` property
//! is a present, non-null string; tessellate each of their polygons (a
//! polygon the triangulator rejects is skipped, the batch continues); project
//! every vertex onto a sphere slightly above the globe so the mesh never
//! z-fights the base surface; and collect per-feature metadata: the name,
//! its deterministic color, and one bounding quad per polygon, joined to its
//! feature by index.
use vstd::prelude::*;

use crate::color::{Rgb, color_of_string, hashable_to_rgb8};
use crate::geo::{GeoFeature, NameProperty};
use crate::num::FP_ONE;
use crate::sphere::{BoundingBox, Vec3Fixed, WORLD_LIMIT, lat_lon_to_vertex,
    lat_lon_to_vertex_spec};
use crate::geo::PlanarPoint;
use crate::tess::{tessellate_polygon, tessellate_spec, rings_view, PolygonTess, PlanarBounds};
use crate::geo::Polygon;

verus! {

/// One mesh vertex: a position on (slightly above) the globe and the
/// feature's color.
#[derive(Clone, Copy, Debug, PartialEq, Eq, Structural)]
pub struct FeatureVertex {
    pub pos: Vec3Fixed,
    pub color: Rgb,
}

/// Per-feature metadata, in structure-of-arrays form. `entries[i]` and
/// `colors[i]` describe feature `i`; `bounding_boxes` holds one quad per
/// tessellated polygon together with the index of the feature it belongs to
/// (a feature may contribute any number of polygons, including none).
pub struct FeatureMetadata {
    pub entries: Vec<String>,
    pub colors: Vec<Rgb>,
    pub bounding_boxes: Vec<(BoundingBox, usize)>,
}

/// A CPU-side mesh: packed vertices and a flat triangle index list, plus the
/// metadata bundle.
pub struct Geometry {
    pub vertices: Vec<FeatureVertex>,
    pub indices: Vec<u32>,
    pub metadata: FeatureMetadata,
}

/// The names of the accepted features, in input order: exactly those whose
/// `NAME` property is a present, non-null string.
pub open spec fn accepted_names(fs: Seq<GeoFeature>) -> Seq<Seq<char>>
    decreases fs.len(),
{
    if fs.len() == 0 {
        Seq::empty()
    } else {
        accepted_names(fs.drop_last()) + (if fs.last().name is Name {
            seq![fs.last().name->Name_0@]
        } else {
            Seq::empty()
        })
    }
}

proof fn lemma_accepted_prefix(fs: Seq<GeoFeature>, i: int)
    requires
        0 <= i < fs.len(),
    ensures
        accepted_names(fs.subrange(0, i + 1)) == accepted_names(fs.subrange(0, i)) + (if fs[i].name
            is Name {
            seq![fs[i].name->Name_0@]
        } else {
            Seq::empty()
        }),
{
    let a = fs.subrange(0, i + 1);
    assert(a.drop_last() =~= fs.subrange(0, i));
    assert(a.last() == fs[i]);
}

/// The value of the combined mesh and metadata, for specification purposes.
pub struct MeshView {
    pub vertices: Seq<FeatureVertex>,
    pub indices: Seq<u32>,
    pub entries: Seq<Seq<char>>,
    pub colors: Seq<Rgb>,
    pub boxes: Seq<(BoundingBox, int)>,
}

/// A mesh with nothing in it.
pub open spec fn empty_mesh() -> MeshView {
    MeshView {
        vertices: Seq::empty(),
        indices: Seq::empty(),
        entries: Seq::empty(),
        colors: Seq::empty(),
        boxes: Seq::empty(),
    }
}

/// One polygon's points projected onto the sphere, all in one color.
pub open spec fn project_points(points: Seq<PlanarPoint>, color: Rgb, radius: int) -> Seq<
    FeatureVertex,
> {
    Seq::new(
        points.len(),
        |i: int|
            FeatureVertex {
                pos: lat_lon_to_vertex_spec(points[i].y as int, points[i].x as int, radius),
                color,
            },
    )
}

/// One polygon's triangle indices rebased into the combined vertex buffer.
pub open spec fn offset_indices(tris: Seq<usize>, base: int) -> Seq<u32> {
    Seq::new(tris.len(), |i: int| (tris[i] + base) as u32)
}

/// One polygon's bounding quad lifted onto the sphere.
pub open spec fn quad_of(b: PlanarBounds, centroid: PlanarPoint, radius: int) -> BoundingBox {
    BoundingBox {
        centroid: lat_lon_to_vertex_spec(centroid.y as int, centroid.x as int, radius),
        tl: lat_lon_to_vertex_spec(b.min_y as int, b.min_x as int, radius),
        tr: lat_lon_to_vertex_spec(b.max_y as int, b.min_x as int, radius),
        bl: lat_lon_to_vertex_spec(b.min_y as int, b.max_x as int, radius),
        br: lat_lon_to_vertex_spec(b.max_y as int, b.max_x as int, radius),
    }
}

/// What one polygon of feature `idx` adds to the mesh: nothing when its
/// tessellation fails or would overflow the 32-bit index buffer; otherwise
/// its projected vertices in the feature's color, its rebased triangle
/// indices, and one bounding quad joined to the feature.
pub open spec fn add_polygon_spec(
    acc: MeshView,
    poly: Polygon,
    maxima_sq: int,
    radius: int,
    idx: int,
) -> MeshView {
    match tessellate_spec(rings_view(&poly), maxima_sq) {
        Result::Err(_) => acc,
        Result::Ok(t) => {
            if acc.vertices.len() + t.points.len() <= 0xFFFF_FFFF {
                MeshView {
                    vertices: acc.vertices + project_points(t.points, acc.colors[idx], radius),
                    indices: acc.indices + offset_indices(
                        t.triangles,
                        acc.vertices.len() as int,
                    ),
                    entries: acc.entries,
                    colors: acc.colors,
                    boxes: acc.boxes.push((quad_of(t.bounds, t.centroid, radius), idx)),
                }
            } else {
                acc
            }
        },
    }
}

/// The mesh after the first `j` polygons of feature `idx`.
pub open spec fn polygons_spec(
    acc: MeshView,
    polys: Seq<Polygon>,
    maxima_sq: int,
    radius: int,
    idx: int,
    j: int,
) -> MeshView
    decreases j,
{
    if j <= 0 {
        acc
    } else {
        add_polygon_spec(
            polygons_spec(acc, polys, maxima_sq, radius, idx, j - 1),
            polys[j - 1],
            maxima_sq,
            radius,
            idx,
        )
    }
}

/// The mesh after the first `i` features: an accepted feature claims the
/// next entry slot with its name and color and adds each of its polygons;
/// any other feature adds nothing at all.
pub open spec fn features_spec(
    acc: MeshView,
    features: Seq<GeoFeature>,
    maxima_sq: int,
    radius: int,
    i: int,
) -> MeshView
    decreases i,
{
    if i <= 0 {
        acc
    } else {
        let acc1 = features_spec(acc, features, maxima_sq, radius, i - 1);
        match features[i - 1].name {
            NameProperty::Name(nm) => {
                let acc2 = MeshView {
                    entries: acc1.entries.push(nm@),
                    colors: acc1.colors.push(color_of_string(nm@)),
                    ..acc1
                };
                polygons_spec(
                    acc2,
                    features[i - 1].polygons@,
                    maxima_sq,
                    radius,
                    acc1.entries.len() as int,
                    features[i - 1].polygons@.len() as int,
                )
            },
            _ => acc1,
        }
    }
}

/// The mesh of a whole feature batch.
pub open spec fn mesh_spec(features: Seq<GeoFeature>, maxima_sq: int, radius: int) -> MeshView {
    features_spec(empty_mesh(), features, maxima_sq, radius, features.len() as int)
}

/// The value of the built geometry.
pub open spec fn geometry_view(g: &Geometry) -> MeshView {
    MeshView {
        vertices: g.vertices@,
        indices: g.indices@,
        entries: g.metadata.entries@.map_values(|s: String| s@),
        colors: g.metadata.colors@,
        boxes: g.metadata.bounding_boxes@.map_values(|p: (BoundingBox, usize)| (p.0, p.1 as int)),
    }
}

/// A mesh whose triangle indices all point into its vertex list.
pub open spec fn mesh_wf(g: &Geometry) -> bool {
    &&& g.indices@.len() % 3 == 0
    &&& forall|i: int| 0 <= i < g.indices@.len() ==> (#[trigger] g.indices@[i]) < g.vertices@.len()
}

/// Metadata whose arrays agree and whose quads point at real features.
pub open spec fn metadata_wf(m: &FeatureMetadata) -> bool {
    &&& m.colors@.len() == m.entries@.len()
    &&& (forall|i: int|
        0 <= i < m.entries@.len() ==> #[trigger] m.colors@[i] == color_of_string(m.entries@[i]@))
    &&& (forall|i: int|
        0 <= i < m.bounding_boxes@.len() ==> (#[trigger] m.bounding_boxes@[i]).1
            < m.entries@.len())
}

/// Append one successfully tessellated polygon to the mesh: its projected
/// vertices in the feature's color, its rebased triangle indices, and one
/// bounding quad joined to feature `idx`.
#[verifier::rlimit(100)]
#[verifier::spinoff_prover]
fn append_polygon(
    vertices: &mut Vec<FeatureVertex>,
    indices: &mut Vec<u32>,
    bounding_boxes: &mut Vec<(BoundingBox, usize)>,
    t: &PolygonTess,
    color: Rgb,
    radius: i64,
    idx: usize,
)
    requires
        0 < radius <= WORLD_LIMIT,
        crate::tess::all_in_range(t.points@),
        t.triangles@.len() % 3 == 0,
        crate::tess::indices_below(t.triangles@, t.points@.len() as int),
        t.bounds.in_range(),
        t.centroid.in_range(),
        old(vertices)@.len() + t.points@.len() <= 0xFFFF_FFFF,
        old(indices)@.len() % 3 == 0,
        forall|k: int|
            0 <= k < old(indices)@.len() ==> (#[trigger] old(indices)@[k])
                < old(vertices)@.len(),
    ensures
        final(vertices)@ == old(vertices)@ + project_points(t.points@, color, radius as int),
        final(indices)@ == old(indices)@ + offset_indices(
            t.triangles@,
            old(vertices)@.len() as int,
        ),
        final(bounding_boxes)@ == old(bounding_boxes)@.push(
            ((quad_of(t.bounds, t.centroid, radius as int)), idx),
        ),
        final(indices)@.len() % 3 == 0,
        forall|k: int|
            0 <= k < final(indices)@.len() ==> (#[trigger] final(indices)@[k])
                < final(vertices)@.len(),
        ({
            let bb = quad_of(t.bounds, t.centroid, radius as int);
            bb.centroid.in_world() && bb.tl.in_world() && bb.tr.in_world() && bb.bl.in_world()
                && bb.br.in_world()
        }),
{
    let ghost base_v: Seq<FeatureVertex> = vertices@;
    let ghost proj: Seq<FeatureVertex> = project_points(t.points@, color, radius as int);
    let base = vertices.len();
    let mut p: usize = 0;
    while p < t.points.len()
        invariant
            0 < radius <= WORLD_LIMIT,
            crate::tess::all_in_range(t.points@),
            proj == project_points(t.points@, color, radius as int),
            base == base_v.len(),
            0 <= p <= t.points@.len(),
            vertices@ == base_v + proj.subrange(0, p as int),
        decreases t.points@.len() - p,
    {
        let pos = lat_lon_to_vertex(t.points[p], radius);
        vertices.push(FeatureVertex { pos, color });
        proof {
            assert(proj.subrange(0, p + 1) =~= proj.subrange(0, p as int).push(
                proj[p as int],
            ));
            assert(vertices@ =~= base_v + proj.subrange(0, p + 1));
        }
        p = p + 1;
    }
    proof {
        assert(proj.subrange(0, proj.len() as int) =~= proj);
        assert(vertices@ =~= base_v + proj);
    }
    let ghost base_i: Seq<u32> = indices@;
    let ghost offs: Seq<u32> = offset_indices(t.triangles@, base as int);
    let mut q: usize = 0;
    while q < t.triangles.len()
        invariant
            crate::tess::indices_below(t.triangles@, t.points@.len() as int),
            t.triangles@.len() % 3 == 0,
            offs == offset_indices(t.triangles@, base as int),
            base == base_v.len(),
            base + t.points@.len() <= 0xFFFF_FFFF,
            vertices@.len() == base + t.points@.len(),
            0 <= q <= t.triangles@.len(),
            q % 3 == 0,
            indices@ == base_i + offs.subrange(0, q as int),
        decreases t.triangles@.len() - q,
    {
        indices.push((t.triangles[q] + base) as u32);
        indices.push((t.triangles[q + 1] + base) as u32);
        indices.push((t.triangles[q + 2] + base) as u32);
        proof {
            assert(offs.subrange(0, q + 3) =~= offs.subrange(0, q as int).push(
                offs[q as int],
            ).push(offs[q + 1]).push(offs[q + 2]));
            assert(indices@ =~= base_i + offs.subrange(0, q + 3));
        }
        q = q + 3;
    }
    proof {
        assert(offs.subrange(0, offs.len() as int) =~= offs);
        assert(indices@ =~= base_i + offs);
        assert(base_i.len() % 3 == 0 && offs.len() % 3 == 0);
        assert forall|k: int| 0 <= k < indices@.len() implies (#[trigger] indices@[k])
            < vertices@.len() by {
            if k >= base_i.len() {
                assert(indices@[k] == offs[k - base_i.len()]);
            }
        }
    }
    let bb = BoundingBox {
        centroid: lat_lon_to_vertex(t.centroid, radius),
        tl: lat_lon_to_vertex(PlanarPoint { x: t.bounds.min_x, y: t.bounds.min_y }, radius),
        tr: lat_lon_to_vertex(PlanarPoint { x: t.bounds.min_x, y: t.bounds.max_y }, radius),
        bl: lat_lon_to_vertex(PlanarPoint { x: t.bounds.max_x, y: t.bounds.min_y }, radius),
        br: lat_lon_to_vertex(PlanarPoint { x: t.bounds.max_x, y: t.bounds.max_y }, radius),
    };
    proof {
        assert(bb == quad_of(t.bounds, t.centroid, radius as int));
    }
    bounding_boxes.push((bb, idx));
}

/// Build the combined mesh and metadata for a batch of features: exactly
/// [`mesh_spec`] of the batch.
///
/// Features without an accepted `NAME` contribute nothing at all; for the
/// rest, `entries` holds exactly their names in input order. A polygon the
/// triangulator rejects, or whose vertices would not fit the 32-bit index
/// buffer, is skipped while the batch continues. `maxima_sq` is the squared
/// planar subdivision threshold in micro-degrees; `globe_radius` is in fixed
/// world units, and the feature mesh sits one world unit above it.
#[verifier::rlimit(100)]
#[verifier::spinoff_prover]
pub fn build_feature_geometry(features: &Vec<GeoFeature>, maxima_sq: i64, globe_radius: i64) -> (g:
    Geometry)
    requires
        forall|i: int| 0 <= i < features@.len() ==> (#[trigger] features@[i]).in_range(),
        maxima_sq >= 1,
        0 < globe_radius,
        globe_radius + FP_ONE <= WORLD_LIMIT,
    ensures
        geometry_view(&g) == mesh_spec(
            features@,
            maxima_sq as int,
            (globe_radius + FP_ONE) as int,
        ),
        g.metadata.entries@.map_values(|s: String| s@) == accepted_names(features@),
        metadata_wf(&g.metadata),
        crate::labels::boxes_in_world(&g.metadata),
        mesh_wf(&g),
        g.metadata.entries@.len() == 0 ==> g.vertices@.len() == 0 && g.indices@.len() == 0
            && g.metadata.bounding_boxes@.len() == 0,
{
    let mut vertices: Vec<FeatureVertex> = Vec::new();
    let mut indices: Vec<u32> = Vec::new();
    let mut entries: Vec<String> = Vec::new();
    let mut colors: Vec<Rgb> = Vec::new();
    let mut bounding_boxes: Vec<(BoundingBox, usize)> = Vec::new();
    let radius = globe_radius + FP_ONE;
    let ghost m: int = maxima_sq as int;
    let ghost rad: int = radius as int;
    let mut i: usize = 0;
    proof {
        assert(entries@.map_values(|s: String| s@) =~= accepted_names(
            features@.subrange(0, 0),
        ));
        assert(bounding_boxes@.map_values(|p: (BoundingBox, usize)| (p.0, p.1 as int))
            =~= Seq::<(BoundingBox, int)>::empty());
        assert((MeshView {
            vertices: vertices@,
            indices: indices@,
            entries: entries@.map_values(|s: String| s@),
            colors: colors@,
            boxes: bounding_boxes@.map_values(|p: (BoundingBox, usize)| (p.0, p.1 as int)),
        }) == empty_mesh());
    }
    while i < features.len()
        invariant
            forall|k: int| 0 <= k < features@.len() ==> (#[trigger] features@[k]).in_range(),
            maxima_sq >= 1,
            0 < globe_radius,
            globe_radius + FP_ONE <= WORLD_LIMIT,
            radius == globe_radius + FP_ONE,
            m == maxima_sq as int,
            rad == radius as int,
            0 <= i <= features@.len(),
            (MeshView {
                vertices: vertices@,
                indices: indices@,
                entries: entries@.map_values(|s: String| s@),
                colors: colors@,
                boxes: bounding_boxes@.map_values(|p: (BoundingBox, usize)| (p.0, p.1 as int)),
            }) == features_spec(empty_mesh(), features@, m, rad, i as int),
            entries@.map_values(|s: String| s@) == accepted_names(features@.subrange(0, i as int)),
            colors@.len() == entries@.len(),
            forall|k: int|
                0 <= k < entries@.len() ==> #[trigger] colors@[k] == color_of_string(
                    entries@[k]@,
                ),
            forall|k: int|
                0 <= k < bounding_boxes@.len() ==> (#[trigger] bounding_boxes@[k]).1
                    < entries@.len(),
            forall|k: int|
                0 <= k < bounding_boxes@.len() ==> ({
                    let bb = (#[trigger] bounding_boxes@[k]).0;
                    bb.centroid.in_world() && bb.tl.in_world() && bb.tr.in_world()
                        && bb.bl.in_world() && bb.br.in_world()
                }),
            indices@.len() % 3 == 0,
            forall|k: int|
                0 <= k < indices@.len() ==> (#[trigger] indices@[k]) < vertices@.len(),
            entries@.len() == 0 ==> vertices@.len() == 0 && indices@.len() == 0,
        decreases features@.len() - i,
    {
        let ghost entries_at = entries@;
        let ghost acc1: MeshView = features_spec(empty_mesh(), features@, m, rad, i as int);
        let feature = &features[i];
        match &feature.name {
            NameProperty::Name(name) => {
                let idx = entries.len();
                let color = hashable_to_rgb8(name.as_str());
                entries.push(name.clone());
                colors.push(color);
                let ghost acc2: MeshView = MeshView {
                    entries: acc1.entries.push(name@),
                    colors: acc1.colors.push(color_of_string(name@)),
                    ..acc1
                };
                proof {
                    assert(entries@.map_values(|s: String| s@) =~= entries_at.map_values(
                        |s: String| s@,
                    ).push(name@));
                    lemma_accepted_prefix(features@, i as int);
                    assert(entries@.map_values(|s: String| s@) =~= accepted_names(
                        features@.subrange(0, i + 1),
                    ));
                    assert(colors@ =~= acc2.colors);
                    assert((MeshView {
                        vertices: vertices@,
                        indices: indices@,
                        entries: entries@.map_values(|s: String| s@),
                        colors: colors@,
                        boxes: bounding_boxes@.map_values(
                            |p: (BoundingBox, usize)| (p.0, p.1 as int),
                        ),
                    }) == acc2);
                }
                let mut j: usize = 0;
                while j < feature.polygons.len()
                    invariant
                        forall|k: int|
                            0 <= k < features@.len() ==> (#[trigger] features@[k]).in_range(),
                        maxima_sq >= 1,
                        0 < globe_radius,
                        globe_radius + FP_ONE <= WORLD_LIMIT,
                        radius == globe_radius + FP_ONE,
                        m == maxima_sq as int,
                        rad == radius as int,
                        0 <= i < features@.len(),
                        feature == &features@[i as int],
                        0 <= j <= feature.polygons@.len(),
                        idx < entries@.len(),
                        colors@[idx as int] == color,
                        (MeshView {
                            vertices: vertices@,
                            indices: indices@,
                            entries: entries@.map_values(|s: String| s@),
                            colors: colors@,
                            boxes: bounding_boxes@.map_values(
                                |p: (BoundingBox, usize)| (p.0, p.1 as int),
                            ),
                        }) == polygons_spec(acc2, feature.polygons@, m, rad, idx as int, j as int),
                        colors@.len() == entries@.len(),
                        forall|k: int|
                            0 <= k < entries@.len() ==> #[trigger] colors@[k] == color_of_string(
                                entries@[k]@,
                            ),
                        forall|k: int|
                            0 <= k < bounding_boxes@.len() ==> (#[trigger] bounding_boxes@[k]).1
                                < entries@.len(),
                        forall|k: int|
                            0 <= k < bounding_boxes@.len() ==> ({
                                let bb = (#[trigger] bounding_boxes@[k]).0;
                                bb.centroid.in_world() && bb.tl.in_world() && bb.tr.in_world()
                                    && bb.bl.in_world() && bb.br.in_world()
                            }),
                        indices@.len() % 3 == 0,
                        forall|k: int|
                            0 <= k < indices@.len() ==> (#[trigger] indices@[k])
                                < vertices@.len(),
                    decreases feature.polygons@.len() - j,
                {
                    let ghost accj: MeshView = polygons_spec(
                        acc2,
                        feature.polygons@,
                        m,
                        rad,
                        idx as int,
                        j as int,
                    );
                    let poly = &feature.polygons[j];
                    match tessellate_polygon(poly, maxima_sq) {
                        Err(_) => {
                            // A polygon the triangulator rejects is skipped;
                            // the rest of the batch still renders.
                            proof {
                                assert(add_polygon_spec(
                                    accj,
                                    feature.polygons@[j as int],
                                    m,
                                    rad,
                                    idx as int,
                                ) == accj);
                            }
                        },
                        Ok(t) => {
                            if vertices.len() as u128 + t.points.len() as u128 <= 0xFFFF_FFFFu128 {
                                append_polygon(
                                    &mut vertices,
                                    &mut indices,
                                    &mut bounding_boxes,
                                    &t,
                                    color,
                                    radius,
                                    idx,
                                );
                                proof {
                                    assert(bounding_boxes@.map_values(
                                        |p: (BoundingBox, usize)| (p.0, p.1 as int),
                                    ) =~= accj.boxes.push(
                                        (
                                            (quad_of(t.bounds, t.centroid, rad)),
                                            idx as int,
                                        ),
                                    ));
                                    assert(add_polygon_spec(
                                        accj,
                                        feature.polygons@[j as int],
                                        m,
                                        rad,
                                        idx as int,
                                    ) == (MeshView {
                                        vertices: vertices@,
                                        indices: indices@,
                                        entries: entries@.map_values(|s: String| s@),
                                        colors: colors@,
                                        boxes: bounding_boxes@.map_values(
                                            |p: (BoundingBox, usize)| (p.0, p.1 as int),
                                        ),
                                    }));
                                }
                            } else {
                                // A polygon that would overflow the 32-bit
                                // index buffer is skipped like a rejected one.
                                proof {
                                    assert(add_polygon_spec(
                                        accj,
                                        feature.polygons@[j as int],
                                        m,
                                        rad,
                                        idx as int,
                                    ) == accj);
                                }
                            }
                        },
                    }
                    proof {
                        assert(polygons_spec(
                            acc2,
                            feature.polygons@,
                            m,
                            rad,
                            idx as int,
                            j + 1,
                        ) == add_polygon_spec(
                            accj,
                            feature.polygons@[j as int],
                            m,
                            rad,
                            idx as int,
                        ));
                    }
                    j = j + 1;
                }
                proof {
                    assert(features_spec(empty_mesh(), features@, m, rad, i + 1) == polygons_spec(
                        acc2,
                        feature.polygons@,
                        m,
                        rad,
                        idx as int,
                        feature.polygons@.len() as int,
                    ));
                }
            },
            _ => {
                proof {
                    lemma_accepted_prefix(features@, i as int);
                    assert(entries@.map_values(|s: String| s@) =~= accepted_names(
                        features@.subrange(0, i + 1),
                    ));
                    assert(features_spec(empty_mesh(), features@, m, rad, i + 1) == acc1);
                }
            },
        }
        i = i + 1;
    }
    proof {
        assert(features@.subrange(0, features@.len() as int) =~= features@);
        if entries@.len() == 0 && bounding_boxes@.len() > 0 {
            assert(bounding_boxes@[0].1 < entries@.len());
        }
    }
    Geometry { vertices, indices, metadata: FeatureMetadata { entries, colors, bounding_boxes } }
}

} // verus!
