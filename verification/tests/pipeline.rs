//! End-to-end checks of the feature pipeline: name filtering, tessellation,
//! subdivision, centroids, metadata, and label candidate collection.
use globe_core::color::hashable_to_rgb8;
use globe_core::geo::{GeoFeature, NameProperty, PlanarPoint, Polygon};
use globe_core::geom::{build_feature_geometry, FeatureMetadata};
use globe_core::labels::{cull_overlapping, label_bounds, queue_labels_for_display,
    refresh_screen_rays, Label, LabelEngine, TextBounds};
use globe_core::num::FP_ONE;
use globe_core::sphere::{hemisphere_maxima_sq, intrs, lat_lon_to_vertex, world_to_screen_space,
    cursor_to_world_ray, BoundingBox, Mat4Fixed, Vec3Fixed, Vec4Fixed};
use globe_core::tess::{tessellate_polygon, GeometryError};

fn pt(x: i64, y: i64) -> PlanarPoint {
    PlanarPoint { x, y }
}

fn square_ring(side: i64) -> Vec<PlanarPoint> {
    vec![pt(0, 0), pt(side, 0), pt(side, side), pt(0, side)]
}

fn identity() -> Mat4Fixed {
    let row = |x: i64, y: i64, z: i64, w: i64| Vec4Fixed { x, y, z, w };
    Mat4Fixed {
        r0: row(FP_ONE, 0, 0, 0),
        r1: row(0, FP_ONE, 0, 0),
        r2: row(0, 0, FP_ONE, 0),
        r3: row(0, 0, 0, FP_ONE),
    }
}

#[test]
fn name_filter_accepts_only_non_null_names() {
    let square = Polygon { rings: vec![square_ring(1_000_000)] };
    let features = vec![
        GeoFeature { name: NameProperty::Null, polygons: vec![Polygon { rings: vec![square_ring(1_000_000)] }] },
        GeoFeature { name: NameProperty::Missing, polygons: vec![Polygon { rings: vec![square_ring(1_000_000)] }] },
        GeoFeature { name: NameProperty::Name(String::from("Foo")), polygons: vec![square] },
    ];
    let g = build_feature_geometry(&features, 10_000_000_000_000, 655_360);
    assert_eq!(g.metadata.entries.len(), 1);
    assert_eq!(g.metadata.entries[0], "Foo");
    assert_eq!(g.metadata.colors.len(), 1);
    assert_eq!(g.metadata.bounding_boxes.len(), 1);
    assert_eq!(g.metadata.bounding_boxes[0].1, 0);
    assert!(g.vertices.len() >= 4);
    assert_eq!(g.indices.len() % 3, 0);
}

#[test]
fn excluded_features_contribute_nothing() {
    let features = vec![
        GeoFeature { name: NameProperty::Null, polygons: vec![Polygon { rings: vec![square_ring(1_000_000)] }] },
        GeoFeature { name: NameProperty::Missing, polygons: vec![Polygon { rings: vec![square_ring(1_000_000)] }] },
    ];
    let g = build_feature_geometry(&features, 10_000_000_000_000, 655_360);
    assert_eq!(g.metadata.entries.len(), 0);
    assert_eq!(g.metadata.colors.len(), 0);
    assert_eq!(g.metadata.bounding_boxes.len(), 0);
    assert_eq!(g.vertices.len(), 0);
    assert_eq!(g.indices.len(), 0);
}

#[test]
fn square_tessellates_into_two_triangles() {
    let square = Polygon { rings: vec![square_ring(1_000_000)] };
    let t = tessellate_polygon(&square, 10_000_000_000_000).unwrap();
    assert_eq!(t.points.len(), 4);
    assert_eq!(t.triangles.len(), 6);
    assert!(t.triangles.iter().all(|&i| i < t.points.len()));
}

#[test]
fn centroid_of_square_is_its_center() {
    let square = Polygon { rings: vec![square_ring(1_000_000)] };
    let t = tessellate_polygon(&square, 10_000_000_000_000).unwrap();
    assert_eq!(t.centroid, pt(500_000, 500_000));
    assert_eq!(t.bounds.min_x, 0);
    assert_eq!(t.bounds.min_y, 0);
    assert_eq!(t.bounds.max_x, 1_000_000);
    assert_eq!(t.bounds.max_y, 1_000_000);
}

#[test]
fn centroid_stays_inside_planar_bounds() {
    // an L-shaped (concave) hexagon: a vertex average would drift, the
    // area-weighted centroid must stay inside the box
    let ring = vec![
        pt(0, 0),
        pt(3_000_000, 0),
        pt(3_000_000, 1_000_000),
        pt(1_000_000, 1_000_000),
        pt(1_000_000, 3_000_000),
        pt(0, 3_000_000),
    ];
    let t = tessellate_polygon(&Polygon { rings: vec![ring] }, 100_000_000_000_000).unwrap();
    assert!(t.bounds.min_x <= t.centroid.x && t.centroid.x <= t.bounds.max_x);
    assert!(t.bounds.min_y <= t.centroid.y && t.centroid.y <= t.bounds.max_y);
}

#[test]
fn subdivision_bounds_every_edge_of_a_wide_triangle() {
    // a pathological triangle spanning 170 degrees of longitude
    let ring = vec![pt(-85_000_000, 0), pt(85_000_000, 0), pt(0, 20_000_000)];
    let maxima = 3_600_000i64; // 3.6 degrees, the 100-slice globe resolution
    let maxima_sq = maxima * maxima;
    let t = tessellate_polygon(&Polygon { rings: vec![ring] }, maxima_sq).unwrap();
    // the subdivision really ran to its fixed point: a 170-degree edge at a
    // 3.6-degree threshold forces hundreds of fragments
    assert!(t.triangles.len() / 3 >= 500);
    for tri in t.triangles.chunks_exact(3) {
        let (a, b, c) = (t.points[tri[0]], t.points[tri[1]], t.points[tri[2]]);
        for (p, q) in [(a, b), (b, c), (c, a)] {
            let dx = p.x - q.x;
            let dy = p.y - q.y;
            assert!(dx * dx + dy * dy <= maxima_sq);
        }
    }
}

#[test]
fn degenerate_outer_ring_is_reported() {
    let thin = Polygon { rings: vec![vec![pt(0, 0), pt(1_000_000, 0)]] };
    match tessellate_polygon(&thin, 1_000_000) {
        Err(e) => assert_eq!(e, GeometryError::DegenerateOuterRing),
        Ok(_) => panic!("a two-point outer ring must be rejected"),
    }
    let none = Polygon { rings: vec![] };
    match tessellate_polygon(&none, 1_000_000) {
        Err(e) => assert_eq!(e, GeometryError::DegenerateOuterRing),
        Ok(_) => panic!("an empty ring list must be rejected"),
    }
}

#[test]
fn empty_hole_ring_is_a_triangulation_error() {
    let bad = Polygon { rings: vec![square_ring(1_000_000), vec![]] };
    match tessellate_polygon(&bad, 10_000_000_000_000) {
        Err(e) => assert_eq!(e, GeometryError::Triangulation),
        Ok(_) => panic!("an empty hole ring must be rejected"),
    }
}

#[test]
fn square_with_hole_keeps_centroid_in_bounds() {
    let outer = square_ring(4_000_000);
    let hole = vec![
        pt(1_000_000, 1_000_000),
        pt(3_000_000, 1_000_000),
        pt(3_000_000, 3_000_000),
        pt(1_000_000, 3_000_000),
    ];
    let t = tessellate_polygon(&Polygon { rings: vec![outer, hole] }, 100_000_000_000_000).unwrap();
    assert!(t.triangles.len() >= 12);
    assert!(t.bounds.min_x <= t.centroid.x && t.centroid.x <= t.bounds.max_x);
    assert!(t.bounds.min_y <= t.centroid.y && t.centroid.y <= t.bounds.max_y);
}

fn pole_quad(y: i64, d: i64) -> BoundingBox {
    // a quad close around the pole axis at height y, wound to face +y
    let c = Vec3Fixed { x: 0, y, z: 0 };
    BoundingBox {
        centroid: c,
        tl: Vec3Fixed { x: -d, y, z: -d },
        tr: Vec3Fixed { x: 0, y, z: d },
        bl: Vec3Fixed { x: d, y, z: -d },
        br: Vec3Fixed { x: d, y, z: d },
    }
}

#[test]
fn hemisphere_cutoff_rejects_far_side_hits() {
    let r: i64 = 100 * FP_ONE;
    let eye = Vec3Fixed { x: 0, y: 2 * r, z: 0 };
    let ray = Vec3Fixed { x: 0, y: -FP_ONE, z: 0 };
    let maxima_sq = hemisphere_maxima_sq(eye, r);
    assert_eq!(maxima_sq, 5 * r * r);
    let d = FP_ONE;
    let near = pole_quad(r, d);
    let far = pole_quad(-r, d);
    // the same ray geometrically passes through both quads
    let hit_near = intrs(eye, ray, near.tl, near.tr, near.bl, maxima_sq);
    assert_eq!(hit_near, Some(r));
    let hit_far = intrs(eye, ray, far.tl, far.tr, far.bl, maxima_sq);
    assert_eq!(hit_far, None);
    // with the cutoff lifted, the far-side quad does register
    let hit_far_uncapped = intrs(eye, ray, far.tl, far.tr, far.bl, i64::MAX);
    assert_eq!(hit_far_uncapped, Some(3 * r));
}

#[test]
fn world_to_screen_under_identity_is_the_point() {
    let m = identity();
    let p = Vec3Fixed { x: 100, y: 200, z: -300 };
    assert_eq!(world_to_screen_space(p, &m, &m), Some((100, 200)));
}

#[test]
fn cursor_ray_under_identity_looks_down_negative_z() {
    let m = identity();
    let r = cursor_to_world_ray(&m, &m, 0, 0).unwrap();
    assert_eq!((r.x, r.y, r.z), (0, 0, -FP_ONE));
}

#[test]
fn visible_quads_become_label_candidates() {
    let r: i64 = 100 * FP_ONE;
    let eye = Vec3Fixed { x: 0, y: 2 * r, z: 0 };
    let ray = Vec3Fixed { x: 0, y: -FP_ONE, z: 0 };
    let maxima_sq = hemisphere_maxima_sq(eye, r);
    let meta = FeatureMetadata {
        entries: vec![String::from("Alpha"), String::from("Omega")],
        colors: vec![hashable_to_rgb8("Alpha"), hashable_to_rgb8("Omega")],
        bounding_boxes: vec![(pole_quad(r, FP_ONE), 0), (pole_quad(-r, FP_ONE), 1)],
    };
    let m = identity();
    let mut labels: Vec<Label> = Vec::new();
    let added = queue_labels_for_display(&mut labels, &meta, &vec![ray], eye, &m, &m, maxima_sq);
    // only the near-side quad is visible; the far-side one is culled
    assert_eq!(added, 1);
    assert_eq!(labels.len(), 1);
    assert_eq!(labels[0].text, "Alpha");
    assert_eq!(labels[0].color, hashable_to_rgb8("Alpha"));
}

#[test]
fn ray_grid_clears_while_moving_and_fills_when_settled() {
    let m = identity();
    let mut rays: Vec<Vec3Fixed> = Vec::new();
    // settled on an empty grid: exactly density * ceil(h / ceil(w / density))
    refresh_screen_rays(false, &mut rays, &m, &m, 800, 600, 15);
    let gap = (800 + 15 - 1) / 15; // 54
    let rows = (600 + gap - 1) / gap; // 12
    assert_eq!(rays.len(), 15 * rows as usize);
    assert_eq!(rays.len(), 180);
    // settled again: the grid is kept, not rebuilt
    let before = rays.len();
    refresh_screen_rays(false, &mut rays, &m, &m, 800, 600, 15);
    assert_eq!(rays.len(), before);
    // movement clears it at once
    refresh_screen_rays(true, &mut rays, &m, &m, 800, 600, 15);
    assert_eq!(rays.len(), 0);
    // and while still moving nothing is generated
    refresh_screen_rays(true, &mut rays, &m, &m, 800, 600, 15);
    assert_eq!(rays.len(), 0);
}

#[test]
fn label_bounds_maps_anchor_and_measures() {
    let b = label_bounds((0, 0), 800, 600, 100, 2, 18);
    assert_eq!(b, TextBounds { left: 400, top: 300, right: 500, bottom: 336 });
    // an unmeasured label stretches to the viewport edge
    let b0 = label_bounds((0, 0), 800, 600, 0, 1, 18);
    assert_eq!(b0.right, 800);
}

fn rect(left: i64, right: i64) -> TextBounds {
    TextBounds { left, top: 0, right, bottom: 10 }
}

#[test]
fn overlap_cull_keeps_both_larger_rivals() {
    // A overlaps B (A larger), B overlaps C (C larger), A and C disjoint
    let items = vec![(rect(0, 10), 3i64), (rect(8, 18), 1i64), (rect(16, 26), 2i64)];
    let alive = cull_overlapping(&items);
    assert_eq!(alive, vec![true, false, true]);
}

#[test]
fn overlap_cull_tie_goes_to_the_earlier_candidate() {
    let items = vec![(rect(0, 10), 2i64), (rect(8, 18), 2i64)];
    let alive = cull_overlapping(&items);
    assert_eq!(alive, vec![true, false]);
}

#[test]
fn disjoint_labels_all_survive() {
    let items = vec![(rect(0, 10), 1i64), (rect(20, 30), 2i64), (rect(40, 50), 3i64)];
    let alive = cull_overlapping(&items);
    assert_eq!(alive, vec![true, true, true]);
}

#[test]
fn engine_prepare_drains_and_culls() {
    let mut engine = LabelEngine::new();
    engine.visible_feature_labels = vec![
        Label { text: String::from("small"), pos: (0, 0), color: hashable_to_rgb8("small"), feature_area: 5 },
        Label { text: String::from("large"), pos: (0, 0), color: hashable_to_rgb8("large"), feature_area: 9 },
    ];
    let measures = vec![(40u32, 1u32), (40u32, 1u32)];
    let out = engine.prepare(&measures, 800, 600, 18);
    // the two rectangles coincide; the larger on-screen feature survives
    assert_eq!(out.len(), 1);
    assert_eq!(out[0].0.text, "large");
    assert_eq!(out[0].1, label_bounds((0, 0), 800, 600, 40, 1, 18));
    // the candidate list is rebuilt from scratch next frame
    assert_eq!(engine.visible_feature_labels.len(), 0);
}

#[test]
fn engine_round_trip_matches_free_functions() {
    let r: i64 = 100 * FP_ONE;
    let eye = Vec3Fixed { x: 0, y: 2 * r, z: 0 };
    let ray = Vec3Fixed { x: 0, y: -FP_ONE, z: 0 };
    let maxima_sq = hemisphere_maxima_sq(eye, r);
    let meta = FeatureMetadata {
        entries: vec![String::from("Alpha")],
        colors: vec![hashable_to_rgb8("Alpha")],
        bounding_boxes: vec![(pole_quad(r, FP_ONE), 0)],
    };
    let m = identity();
    let mut engine = LabelEngine::new();
    engine.queue_labels_for_display(&meta, &vec![ray], eye, &m, &m, maxima_sq);
    assert_eq!(engine.visible_feature_labels.len(), 1);
    let measures = vec![(45u32, 1u32)];
    let out = engine.prepare(&measures, 800, 600, 18);
    assert_eq!(out.len(), 1);
    assert_eq!(out[0].0.text, "Alpha");
}

#[test]
fn sphere_mapping_follows_the_plain_formula() {
    let r: i64 = 10 * FP_ONE;
    // radius * (cos(lat)cos(lon), sin(lat), cos(lat)sin(lon))
    assert_eq!(lat_lon_to_vertex(pt(0, 90_000_000), r), Vec3Fixed { x: 0, y: r, z: 0 });
    assert_eq!(lat_lon_to_vertex(pt(0, -90_000_000), r), Vec3Fixed { x: 0, y: -r, z: 0 });
    assert_eq!(lat_lon_to_vertex(pt(0, 0), r), Vec3Fixed { x: r, y: 0, z: 0 });
    assert_eq!(lat_lon_to_vertex(pt(90_000_000, 0), r), Vec3Fixed { x: 0, y: 0, z: r });
    assert_eq!(lat_lon_to_vertex(pt(180_000_000, 0), r), Vec3Fixed { x: -r, y: 0, z: 0 });
}
