//! Screen-space label placement.
//!
//! While the camera moves, the ray grid is discarded and no label work
//! happens; the moment it settles on an empty grid, a fresh grid of
//! screen-spanning rays is cast. Each ray is tested against every polygon's
//! bounding quad (both triangle halves, capped to the visible hemisphere);
//! a hit makes the quad's feature a label candidate, anchored at the
//! projected centroid and weighted by its approximate on-screen area.
//! Candidates whose measured text rectangles overlap are then culled
//! pairwise: the smaller on-screen feature loses, and on equal areas the
//! earlier candidate wins.
use vstd::prelude::*;

use crate::color::Rgb;
use crate::geom::FeatureMetadata;
use crate::num::{FP_ONE, abs_int, tdiv};
use crate::sphere::{Mat4Fixed, Vec3Fixed, NDC_LIMIT, cursor_to_world_ray,
    cursor_to_world_ray_spec, intrs, intrs_spec, world_to_screen_space, world_to_screen_spec};

verus! {

/// A label candidate: the feature's name, its anchor in fixed-point
/// normalized device coordinates, its color, and its approximate on-screen
/// footprint.
pub struct Label {
    pub text: String,
    pub pos: (i64, i64),
    pub color: Rgb,
    pub feature_area: i64,
}

/// The value of a label, for specification purposes.
pub struct LabelView {
    pub text: Seq<char>,
    pub pos: (int, int),
    pub color: Rgb,
    pub feature_area: int,
}

/// The value of a label.
pub open spec fn label_view(l: Label) -> LabelView {
    LabelView {
        text: l.text@,
        pos: (l.pos.0 as int, l.pos.1 as int),
        color: l.color,
        feature_area: l.feature_area as int,
    }
}

/// Half the magnitude of a coordinate difference.
pub open spec fn half_extent(a: int, b: int) -> int {
    tdiv(abs_int(a - b), 2)
}

/// The candidate (none or one) that a single ray and a single bounding quad
/// produce: a candidate exists when either triangle half of the quad
/// registers a hit within the hemisphere cutoff and the centroid and both
/// measured corners project onto the screen.
#[verifier::opaque]
pub open spec fn candidate_spec(
    meta: FeatureMetadata,
    eye: Vec3Fixed,
    view: Mat4Fixed,
    proj: Mat4Fixed,
    maxima_sq: int,
    ray: Vec3Fixed,
    k: int,
) -> Seq<LabelView> {
    let bb = meta.bounding_boxes@[k].0;
    let idx = meta.bounding_boxes@[k].1;
    let a = intrs_spec(eye, ray, bb.tl, bb.tr, bb.bl, maxima_sq);
    let b = intrs_spec(eye, ray, bb.tr, bb.br, bb.bl, maxima_sq);
    if a is Some || b is Some {
        match world_to_screen_spec(bb.centroid, view, proj) {
            Option::None => Seq::empty(),
            Option::Some(pos) => {
                match (world_to_screen_spec(bb.tl, view, proj), world_to_screen_spec(
                    bb.br,
                    view,
                    proj,
                )) {
                    (Option::Some(mn), Option::Some(mx)) => seq![
                        LabelView {
                            text: meta.entries@[idx as int]@,
                            pos: pos,
                            color: meta.colors@[idx as int],
                            feature_area: half_extent(mx.0, mn.0) * half_extent(mx.1, mn.1),
                        },
                    ],
                    _ => Seq::empty(),
                }
            },
        }
    } else {
        Seq::empty()
    }
}

/// All candidates one ray produces, over the first `k` bounding quads.
pub open spec fn ray_candidates_spec(
    meta: FeatureMetadata,
    eye: Vec3Fixed,
    view: Mat4Fixed,
    proj: Mat4Fixed,
    maxima_sq: int,
    ray: Vec3Fixed,
    k: int,
) -> Seq<LabelView>
    decreases k,
{
    if k <= 0 {
        Seq::empty()
    } else {
        ray_candidates_spec(meta, eye, view, proj, maxima_sq, ray, k - 1) + candidate_spec(
            meta,
            eye,
            view,
            proj,
            maxima_sq,
            ray,
            k - 1,
        )
    }
}

/// All candidates of the first `n` rays.
pub open spec fn visible_labels_spec(
    meta: FeatureMetadata,
    eye: Vec3Fixed,
    view: Mat4Fixed,
    proj: Mat4Fixed,
    maxima_sq: int,
    rays: Seq<Vec3Fixed>,
    n: int,
) -> Seq<LabelView>
    decreases n,
{
    if n <= 0 {
        Seq::empty()
    } else {
        visible_labels_spec(meta, eye, view, proj, maxima_sq, rays, n - 1) + ray_candidates_spec(
            meta,
            eye,
            view,
            proj,
            maxima_sq,
            rays[n - 1],
            meta.bounding_boxes@.len() as int,
        )
    }
}

/// Metadata whose quads and centroids are all within world range, as the
/// mesh builder produces them.
pub open spec fn boxes_in_world(meta: &FeatureMetadata) -> bool {
    forall|k: int|
        0 <= k < meta.bounding_boxes@.len() ==> {
            let bb = (#[trigger] meta.bounding_boxes@[k]).0;
            bb.centroid.in_world() && bb.tl.in_world() && bb.tr.in_world() && bb.bl.in_world()
                && bb.br.in_world()
        }
}

/// Test one bounding quad against one ray and push the candidate, if any.
fn visit_box(
    labels: &mut Vec<Label>,
    meta: &FeatureMetadata,
    ray: Vec3Fixed,
    eye: Vec3Fixed,
    view: &Mat4Fixed,
    proj: &Mat4Fixed,
    maxima_sq: i64,
    k: usize,
) -> (added: bool)
    requires
        crate::geom::metadata_wf(meta),
        boxes_in_world(meta),
        eye.in_world(),
        ray.is_direction(),
        view.in_range(),
        proj.in_range(),
        k < meta.bounding_boxes@.len(),
    ensures
        final(labels)@.map_values(|l: Label| label_view(l)) == old(labels)@.map_values(
            |l: Label| label_view(l),
        ) + candidate_spec(*meta, eye, *view, *proj, maxima_sq as int, ray, k as int),
        final(labels)@.len() == old(labels)@.len() + if added {
            1int
        } else {
            0int
        },
{
    proof {
        reveal(candidate_spec);
    }
    let ghost before: Seq<LabelView> = labels@.map_values(|l: Label| label_view(l));
    let ghost cand: Seq<LabelView> = candidate_spec(
        *meta,
        eye,
        *view,
        *proj,
        maxima_sq as int,
        ray,
        k as int,
    );
    let (bb, idx) = meta.bounding_boxes[k];
    let a = intrs(eye, ray, bb.tl, bb.tr, bb.bl, maxima_sq);
    let b = intrs(eye, ray, bb.tr, bb.br, bb.bl, maxima_sq);
    if a.is_some() || b.is_some() {
        let pos = world_to_screen_space(bb.centroid, view, proj);
        let mn = world_to_screen_space(bb.tl, view, proj);
        let mx = world_to_screen_space(bb.br, view, proj);
        match (pos, mn, mx) {
            (Some(pos), Some(mn), Some(mx)) => {
                let wx: i64 = if mx.0 >= mn.0 {
                    (mx.0 - mn.0) / 2
                } else {
                    (mn.0 - mx.0) / 2
                };
                let wy: i64 = if mx.1 >= mn.1 {
                    (mx.1 - mn.1) / 2
                } else {
                    (mn.1 - mx.1) / 2
                };
                proof {
                    crate::num::lemma_mul_abs_bound(wx as int, wy as int, NDC_LIMIT as int, NDC_LIMIT as int);
                }
                let label = Label {
                    text: meta.entries[idx].clone(),
                    pos,
                    color: meta.colors[idx],
                    feature_area: wx * wy,
                };
                let ghost lv = label_view(label);
                labels.push(label);
                proof {
                    assert(cand =~= seq![lv]);
                    assert(labels@.map_values(|l: Label| label_view(l)) =~= before.push(lv));
                    assert(before.push(lv) =~= before + cand);
                }
                true
            },
            _ => {
                proof {
                    assert(cand =~= Seq::<LabelView>::empty());
                    assert(before + cand =~= before);
                }
                false
            },
        }
    } else {
        proof {
            assert(cand =~= Seq::<LabelView>::empty());
            assert(before + cand =~= before);
        }
        false
    }
}

/// Collect the visible-feature label candidates for this frame: every ray of
/// the settled grid is tested against every bounding quad, and each hit
/// yields one candidate for the quad's feature.
#[verifier::rlimit(100)]
pub fn queue_labels_for_display(
    labels: &mut Vec<Label>,
    meta: &FeatureMetadata,
    rays: &Vec<Vec3Fixed>,
    eye: Vec3Fixed,
    view: &Mat4Fixed,
    proj: &Mat4Fixed,
    maxima_sq: i64,
) -> (n_added: usize)
    requires
        crate::geom::metadata_wf(meta),
        boxes_in_world(meta),
        eye.in_world(),
        forall|i: int| 0 <= i < rays@.len() ==> (#[trigger] rays@[i]).is_direction(),
        view.in_range(),
        proj.in_range(),
    ensures
        final(labels)@.len() == old(labels)@.len() + n_added,
        final(labels)@.map_values(|l: Label| label_view(l)) == old(labels)@.map_values(
            |l: Label| label_view(l),
        ) + visible_labels_spec(
            *meta,
            eye,
            *view,
            *proj,
            maxima_sq as int,
            rays@,
            rays@.len() as int,
        ),
{
    let ghost base: Seq<LabelView> = labels@.map_values(|l: Label| label_view(l));
    let mut n_added: usize = 0;
    let mut r: usize = 0;
    proof {
        assert(labels@.map_values(|l: Label| label_view(l)) =~= base + visible_labels_spec(
            *meta,
            eye,
            *view,
            *proj,
            maxima_sq as int,
            rays@,
            0,
        ));
    }
    while r < rays.len()
        invariant
            crate::geom::metadata_wf(meta),
            boxes_in_world(meta),
            eye.in_world(),
            forall|i: int| 0 <= i < rays@.len() ==> (#[trigger] rays@[i]).is_direction(),
            view.in_range(),
            proj.in_range(),
            0 <= r <= rays@.len(),
            labels@.len() == base.len() + n_added,
            n_added <= labels@.len(),
            labels@.map_values(|l: Label| label_view(l)) == base + visible_labels_spec(
                *meta,
                eye,
                *view,
                *proj,
                maxima_sq as int,
                rays@,
                r as int,
            ),
        decreases rays@.len() - r,
    {
        let ray = rays[r];
        let mut k: usize = 0;
        let ghost at_ray: Seq<LabelView> = labels@.map_values(|l: Label| label_view(l));
        proof {
            assert(at_ray =~= at_ray + ray_candidates_spec(
                *meta,
                eye,
                *view,
                *proj,
                maxima_sq as int,
                ray,
                0,
            ));
        }
        while k < meta.bounding_boxes.len()
            invariant
                crate::geom::metadata_wf(meta),
                boxes_in_world(meta),
                eye.in_world(),
                ray.is_direction(),
                view.in_range(),
                proj.in_range(),
                0 <= k <= meta.bounding_boxes@.len(),
                labels@.len() == base.len() + n_added,
                n_added <= labels@.len(),
                labels@.map_values(|l: Label| label_view(l)) == at_ray + ray_candidates_spec(
                    *meta,
                    eye,
                    *view,
                    *proj,
                    maxima_sq as int,
                    ray,
                    k as int,
                ),
            decreases meta.bounding_boxes@.len() - k,
        {
            let ghost mid: Seq<LabelView> = labels@.map_values(|l: Label| label_view(l));
            let ghost cand: Seq<LabelView> = candidate_spec(
                *meta,
                eye,
                *view,
                *proj,
                maxima_sq as int,
                ray,
                k as int,
            );
            let added = visit_box(labels, meta, ray, eye, view, proj, maxima_sq, k);
            if added {
                let cur = labels.len();
                proof {
                    assert(n_added + 1 <= cur);
                }
                n_added = n_added + 1;
            }
            proof {
                assert(ray_candidates_spec(*meta, eye, *view, *proj, maxima_sq as int, ray, k + 1)
                    == ray_candidates_spec(
                    *meta,
                    eye,
                    *view,
                    *proj,
                    maxima_sq as int,
                    ray,
                    k as int,
                ) + cand);
                assert((at_ray + ray_candidates_spec(
                    *meta,
                    eye,
                    *view,
                    *proj,
                    maxima_sq as int,
                    ray,
                    k as int,
                )) + cand =~= at_ray + (ray_candidates_spec(
                    *meta,
                    eye,
                    *view,
                    *proj,
                    maxima_sq as int,
                    ray,
                    k as int,
                ) + cand));
            }
            k = k + 1;
        }
        proof {
            assert(visible_labels_spec(*meta, eye, *view, *proj, maxima_sq as int, rays@, r + 1)
                == visible_labels_spec(*meta, eye, *view, *proj, maxima_sq as int, rays@, r as int)
                + ray_candidates_spec(
                *meta,
                eye,
                *view,
                *proj,
                maxima_sq as int,
                rays@[r as int],
                meta.bounding_boxes@.len() as int,
            ));
            assert((base + visible_labels_spec(
                *meta,
                eye,
                *view,
                *proj,
                maxima_sq as int,
                rays@,
                r as int,
            )) + ray_candidates_spec(
                *meta,
                eye,
                *view,
                *proj,
                maxima_sq as int,
                rays@[r as int],
                meta.bounding_boxes@.len() as int,
            ) =~= base + (visible_labels_spec(
                *meta,
                eye,
                *view,
                *proj,
                maxima_sq as int,
                rays@,
                r as int,
            ) + ray_candidates_spec(
                *meta,
                eye,
                *view,
                *proj,
                maxima_sq as int,
                rays@[r as int],
                meta.bounding_boxes@.len() as int,
            )));
        }
        r = r + 1;
    }
    n_added
}

/// Ceiling division of positive quantities.
pub open spec fn div_ceil_spec(a: int, b: int) -> int {
    (a + b - 1) / b
}

/// The ray cast through the center of grid cell `ix` (row-major, `density`
/// cells per row, `rows` rows): the unprojected direction, or the view axis
/// where unprojection degenerates.
pub open spec fn cell_ray_spec(
    inv_view: Mat4Fixed,
    inv_proj: Mat4Fixed,
    rows: int,
    density: int,
    ix: int,
) -> Vec3Fixed {
    let y = ix / density;
    let x = ix % density;
    let ndc_x = (2 * x + 1) * FP_ONE as int / density - FP_ONE as int;
    let ndc_y = (2 * y + 1) * FP_ONE as int / rows - FP_ONE as int;
    match cursor_to_world_ray_spec(inv_view, inv_proj, ndc_x, ndc_y) {
        Option::Some(d) => d,
        Option::None => Vec3Fixed { x: 0, y: 0, z: (-FP_ONE) as i64 },
    }
}

/// Keep the screen-ray grid in step with camera motion: while the camera
/// moves any rays are discarded; the moment it has settled on an empty grid,
/// a full grid is cast, one ray through the center of each cell, `density`
/// cells per row and one row per `ceil(width/density)` pixels of height.
/// A degenerate unprojection falls back to the view axis so the grid's size
/// depends only on the viewport and density.
pub fn refresh_screen_rays(
    moving: bool,
    rays: &mut Vec<Vec3Fixed>,
    inv_view: &Mat4Fixed,
    inv_proj: &Mat4Fixed,
    width: u32,
    height: u32,
    density: u32,
)
    requires
        inv_view.in_range(),
        inv_proj.in_range(),
        width <= 0x1_0000,
        height <= 0x1_0000,
        0 < density <= 0x1_0000,
    ensures
        moving ==> final(rays)@.len() == 0,
        !moving && old(rays)@.len() > 0 ==> final(rays)@ == old(rays)@,
        !moving && old(rays)@.len() == 0 && width > 0 && height > 0 ==> final(rays)@.len()
            == density as int * div_ceil_spec(
            height as int,
            div_ceil_spec(width as int, density as int),
        ),
        !moving && old(rays)@.len() == 0 && (width == 0 || height == 0) ==> final(rays)@.len()
            == 0,
        !moving && old(rays)@.len() == 0 ==> (forall|i: int|
            0 <= i < final(rays)@.len() ==> (#[trigger] final(rays)@[i]).is_direction()),
        !moving && old(rays)@.len() == 0 && width > 0 && height > 0 ==> (forall|i: int|
            0 <= i < final(rays)@.len() ==> #[trigger] final(rays)@[i] == cell_ray_spec(
                *inv_view,
                *inv_proj,
                div_ceil_spec(height as int, div_ceil_spec(width as int, density as int)),
                density as int,
                i,
            )),
{
    if moving {
        if rays.len() > 0 {
            rays.clear();
        }
        return ;
    }
    if rays.len() > 0 {
        return ;
    }
    if width == 0 || height == 0 {
        return ;
    }
    let gap: u32 = (width + density - 1) / density;
    proof {
        vstd::arithmetic::div_mod::lemma_div_non_zero(
            width as int + density as int - 1,
            density as int,
        );
        assert(height as int + gap as int - 1 <= height as int * gap as int) by (nonlinear_arith)
            requires
                height as int >= 1,
                gap as int >= 1,
        ;
        vstd::arithmetic::div_mod::lemma_div_is_ordered(
            height as int + gap as int - 1,
            height as int * gap as int,
            gap as int,
        );
        vstd::arithmetic::div_mod::lemma_div_multiples_vanish(height as int, gap as int);
        assert(gap as int * height as int == height as int * gap as int) by (nonlinear_arith);
    }
    let rows: u32 = (height + gap - 1) / gap;
    proof {
        vstd::arithmetic::div_mod::lemma_div_non_zero(
            height as int + gap as int - 1,
            gap as int,
        );
    }
    let ghost rows_g: int = rows as int;
    let mut y: u32 = 0;
    while y < rows
        invariant
            inv_view.in_range(),
            inv_proj.in_range(),
            0 < density <= 0x1_0000,
            rows <= 0x1_0000,
            rows >= 1,
            rows_g == rows as int,
            0 <= y <= rows,
            rays@.len() == y as int * density as int,
            forall|i: int| 0 <= i < rays@.len() ==> (#[trigger] rays@[i]).is_direction(),
            forall|i: int|
                0 <= i < rays@.len() ==> #[trigger] rays@[i] == cell_ray_spec(
                    *inv_view,
                    *inv_proj,
                    rows_g,
                    density as int,
                    i,
                ),
        decreases rows - y,
    {
        proof {
            lemma_cell_ndc_in_range(y as int, rows as int);
        }
        let ndc_y: i64 = ((2 * (y as i64) + 1) * FP_ONE) / (rows as i64) - FP_ONE;
        let mut x: u32 = 0;
        while x < density
            invariant
                inv_view.in_range(),
                inv_proj.in_range(),
                0 < density <= 0x1_0000,
                rows <= 0x1_0000,
                rows_g == rows as int,
                0 <= y < rows,
                ndc_y as int == (2 * y as int + 1) * FP_ONE as int / rows_g - FP_ONE as int,
                -FP_ONE <= ndc_y <= FP_ONE,
                0 <= x <= density,
                rays@.len() == y as int * density as int + x as int,
                forall|i: int| 0 <= i < rays@.len() ==> (#[trigger] rays@[i]).is_direction(),
                forall|i: int|
                    0 <= i < rays@.len() ==> #[trigger] rays@[i] == cell_ray_spec(
                        *inv_view,
                        *inv_proj,
                        rows_g,
                        density as int,
                        i,
                    ),
            decreases density - x,
        {
            proof {
                lemma_cell_ndc_in_range(x as int, density as int);
            }
            let ndc_x: i64 = ((2 * (x as i64) + 1) * FP_ONE) / (density as i64) - FP_ONE;
            let ray = match cursor_to_world_ray(inv_view, inv_proj, ndc_x, ndc_y) {
                Some(d) => d,
                None => Vec3Fixed { x: 0, y: 0, z: -FP_ONE },
            };
            proof {
                vstd::arithmetic::div_mod::lemma_fundamental_div_mod_converse(
                    rays@.len() as int,
                    density as int,
                    y as int,
                    x as int,
                );
                assert(ray == cell_ray_spec(
                    *inv_view,
                    *inv_proj,
                    rows_g,
                    density as int,
                    rays@.len() as int,
                ));
            }
            rays.push(ray);
            x = x + 1;
        }
        proof {
            assert((y as int + 1) * density as int == y as int * density as int + density as int)
                by (nonlinear_arith);
        }
        y = y + 1;
    }
    proof {
        assert(density as int * rows_g == rows_g * density as int) by (nonlinear_arith);
    }
}

/// The center of grid cell `k` of `n`, in fixed-point normalized device
/// coordinates, lies within the unit range.
proof fn lemma_cell_ndc_in_range(k: int, n: int)
    requires
        0 <= k < n,
        n <= 0x1_0000,
    ensures
        -(FP_ONE as int) <= (2 * k + 1) * FP_ONE as int / n - FP_ONE as int <= FP_ONE as int,
{
    let num = (2 * k + 1) * (FP_ONE as int);
    assert(0 <= num <= n * (2 * FP_ONE as int)) by (nonlinear_arith)
        requires
            0 <= k < n,
            num == (2 * k + 1) * (FP_ONE as int),
    ;
    vstd::arithmetic::div_mod::lemma_div_pos_is_pos(num, n);
    vstd::arithmetic::div_mod::lemma_div_is_ordered(num, n * (2 * FP_ONE as int), n);
    vstd::arithmetic::div_mod::lemma_div_multiples_vanish(2 * FP_ONE as int, n);
}

/// A label's screen rectangle, in pixels.
#[derive(Clone, Copy, Debug, PartialEq, Eq, Structural)]
pub struct TextBounds {
    pub left: i64,
    pub top: i64,
    pub right: i64,
    pub bottom: i64,
}

/// The rectangle a measured label occupies: the anchor mapped from
/// normalized device coordinates to pixels (y flipped), the measured line
/// width to the right of it — a zero measure stretches to the viewport's
/// edge, as an unshaped label must never cull others — and one line height
/// per measured line below it.
pub open spec fn label_bounds_spec(
    pos: (int, int),
    width: int,
    height: int,
    line_width: int,
    line_count: int,
    line_height: int,
) -> TextBounds {
    let left = tdiv((pos.0 + FP_ONE as int) * width, 2 * FP_ONE as int);
    let top = tdiv((-pos.1 + FP_ONE as int) * height, 2 * FP_ONE as int);
    TextBounds {
        left: left as i64,
        top: top as i64,
        right: (if line_width == 0 {
            width
        } else {
            left + line_width
        }) as i64,
        bottom: (top + line_count * line_height) as i64,
    }
}

/// Compute the screen rectangle of one measured label. The text itself is
/// shaped and measured by the host's text-layout service; only the measured
/// line width and line count enter here.
pub fn label_bounds(
    pos: (i64, i64),
    width: u32,
    height: u32,
    line_width: u32,
    line_count: u32,
    line_height: u32,
) -> (b: TextBounds)
    requires
        -NDC_LIMIT <= pos.0 <= NDC_LIMIT,
        -NDC_LIMIT <= pos.1 <= NDC_LIMIT,
        width <= 0x1_0000,
        height <= 0x1_0000,
        line_width <= 0x1_0000,
        line_count <= 0x1_0000,
        line_height <= 0x1_0000,
    ensures
        b == label_bounds_spec(
            (pos.0 as int, pos.1 as int),
            width as int,
            height as int,
            line_width as int,
            line_count as int,
            line_height as int,
        ),
{
    proof {
        crate::num::lemma_mul_abs_bound(pos.0 as int + FP_ONE as int, width as int, 0x101_0000, 0x1_0000);
        crate::num::lemma_mul_abs_bound(-pos.1 as int + FP_ONE as int, height as int, 0x101_0000, 0x1_0000);
        crate::num::lemma_mul_abs_bound(line_count as int, line_height as int, 0x1_0000, 0x1_0000);
        crate::num::lemma_tdiv_abs_bound((pos.0 as int + FP_ONE as int) * width as int, 2 * FP_ONE as int, 0x101_0000int * 0x1_0000);
        crate::num::lemma_tdiv_abs_bound((-pos.1 as int + FP_ONE as int) * height as int, 2 * FP_ONE as int, 0x101_0000int * 0x1_0000);
    }
    let nx: i64 = (pos.0 + FP_ONE) * (width as i64);
    let left: i64 = if nx >= 0 {
        nx / (2 * FP_ONE)
    } else {
        -((-nx) / (2 * FP_ONE))
    };
    let ny: i64 = (-pos.1 + FP_ONE) * (height as i64);
    let top: i64 = if ny >= 0 {
        ny / (2 * FP_ONE)
    } else {
        -((-ny) / (2 * FP_ONE))
    };
    let right: i64 = if line_width == 0 {
        width as i64
    } else {
        left + line_width as i64
    };
    let bottom: i64 = top + (line_count as i64) * (line_height as i64);
    TextBounds { left, top, right, bottom }
}

/// The standard axis-aligned overlap test on two label rectangles.
pub open spec fn rects_overlap(a: TextBounds, b: TextBounds) -> bool {
    !(b.left > a.right || b.right < a.left || b.top > a.bottom || b.bottom < a.top)
}

/// Runtime overlap test.
pub fn overlapping(a: &TextBounds, b: &TextBounds) -> (r: bool)
    ensures
        r == rects_overlap(*a, *b),
{
    !(b.left > a.right || b.right < a.left || b.top > a.bottom || b.bottom < a.top)
}

/// One survivor candidate `i` sweeping the candidates after position `j`:
/// a still-alive rectangle that overlaps candidate `i` is eliminated when
/// `i`'s on-screen area is at least as large (so on equal areas the earlier
/// candidate wins); otherwise candidate `i` itself is eliminated and the
/// sweep stops.
pub open spec fn cull_inner(
    items: Seq<(TextBounds, i64)>,
    alive: Seq<bool>,
    i: int,
    j: int,
) -> Seq<bool>
    decreases items.len() - j,
{
    if j >= items.len() {
        alive
    } else if !alive[j] {
        cull_inner(items, alive, i, j + 1)
    } else if rects_overlap(items[i].0, items[j].0) {
        if items[i].1 >= items[j].1 {
            cull_inner(items, alive.update(j, false), i, j + 1)
        } else {
            alive.update(i, false)
        }
    } else {
        cull_inner(items, alive, i, j + 1)
    }
}

/// The full greedy cull from candidate `i` on.
pub open spec fn cull_outer(items: Seq<(TextBounds, i64)>, alive: Seq<bool>, i: int) -> Seq<bool>
    decreases items.len() - i,
{
    if i >= items.len() {
        alive
    } else {
        let alive2 = if alive[i] {
            cull_inner(items, alive, i, i + 1)
        } else {
            alive
        };
        cull_outer(items, alive2, i + 1)
    }
}

/// Which of the measured label rectangles survive overlap resolution.
pub open spec fn cull_spec(items: Seq<(TextBounds, i64)>) -> Seq<bool> {
    cull_outer(items, Seq::new(items.len(), |i: int| true), 0)
}

/// Resolve overlaps among the measured label rectangles: for every pair of
/// overlapping rectangles the smaller on-screen feature is eliminated (ties
/// go to the earlier candidate), each candidate's sweep stopping as soon as
/// it loses. Returns the survivor mask.
pub fn cull_overlapping(items: &Vec<(TextBounds, i64)>) -> (alive: Vec<bool>)
    ensures
        alive@ == cull_spec(items@),
        alive@.len() == items@.len(),
{
    let n = items.len();
    let mut alive: Vec<bool> = Vec::new();
    let mut t: usize = 0;
    while t < n
        invariant
            0 <= t <= n,
            alive@.len() == t,
            forall|q: int| 0 <= q < t ==> alive@[q] == true,
        decreases n - t,
    {
        alive.push(true);
        t = t + 1;
    }
    proof {
        assert(alive@ =~= Seq::new(items@.len(), |i: int| true));
    }
    let mut i: usize = 0;
    while i < n
        invariant
            n == items@.len(),
            alive@.len() == n,
            0 <= i <= n,
            cull_outer(items@, alive@, i as int) == cull_spec(items@),
        decreases n - i,
    {
        let ghost alive_at_i: Seq<bool> = alive@;
        if alive[i] {
            let ghost target: Seq<bool> = cull_inner(items@, alive@, i as int, i + 1);
            let mut j: usize = i + 1;
            let mut lost: bool = false;
            while j < n
                invariant_except_break
                    n == items@.len(),
                    alive@.len() == n,
                    0 <= i < n,
                    i < j <= n,
                    lost == false,
                    alive@[i as int] == true,
                    cull_inner(items@, alive@, i as int, j as int) == target,
                ensures
                    alive@.len() == n,
                    alive@ == target,
                decreases n - j,
            {
                if alive[j] {
                    let fst = items[i];
                    let snd = items[j];
                    if overlapping(&fst.0, &snd.0) {
                        if fst.1 >= snd.1 {
                            alive.set(j, false);
                        } else {
                            alive.set(i, false);
                            lost = true;
                            proof {
                                assert(alive@ == target);
                            }
                            break ;
                        }
                    }
                }
                j = j + 1;
            }
            proof {
                assert(cull_outer(items@, alive_at_i, i as int) == cull_outer(
                    items@,
                    target,
                    i + 1,
                ));
            }
        } else {
            proof {
                assert(cull_outer(items@, alive_at_i, i as int) == cull_outer(
                    items@,
                    alive_at_i,
                    i + 1,
                ));
            }
        }
        i = i + 1;
    }
    alive
}

/// The rectangles and areas of measured labels, in candidate order.
pub open spec fn measured_items_spec(
    labels: Seq<LabelView>,
    measures: Seq<(u32, u32)>,
    width: int,
    height: int,
    line_height: int,
) -> Seq<(TextBounds, i64)> {
    Seq::new(
        labels.len(),
        |i: int|
            (
                label_bounds_spec(
                    labels[i].pos,
                    width,
                    height,
                    measures[i].0 as int,
                    measures[i].1 as int,
                    line_height,
                ),
                labels[i].feature_area as i64,
            ),
    )
}

/// The first `k` candidates that survive the mask, with their rectangles,
/// in order.
pub open spec fn survivors_spec(
    labels: Seq<LabelView>,
    items: Seq<(TextBounds, i64)>,
    mask: Seq<bool>,
    k: int,
) -> Seq<(LabelView, TextBounds)>
    decreases k,
{
    if k <= 0 {
        Seq::empty()
    } else {
        survivors_spec(labels, items, mask, k - 1) + (if mask[k - 1] {
            seq![(labels[k - 1], items[k - 1].0)]
        } else {
            Seq::empty()
        })
    }
}

/// The label engine's per-frame state: the candidates collected by the
/// visibility sweep, waiting to be measured and culled.
pub struct LabelEngine {
    pub visible_feature_labels: Vec<Label>,
}

impl LabelEngine {
    /// An engine with no candidates.
    pub fn new() -> (r: LabelEngine)
        ensures
            r.visible_feature_labels@.len() == 0,
    {
        LabelEngine { visible_feature_labels: Vec::new() }
    }

    /// Collect this frame's label candidates; see
    /// [`queue_labels_for_display`].
    pub fn queue_labels_for_display(
        &mut self,
        meta: &FeatureMetadata,
        rays: &Vec<Vec3Fixed>,
        eye: Vec3Fixed,
        view: &Mat4Fixed,
        proj: &Mat4Fixed,
        maxima_sq: i64,
    )
        requires
            crate::geom::metadata_wf(meta),
            boxes_in_world(meta),
            eye.in_world(),
            forall|i: int| 0 <= i < rays@.len() ==> (#[trigger] rays@[i]).is_direction(),
            view.in_range(),
            proj.in_range(),
        ensures
            final(self).visible_feature_labels@.map_values(|l: Label| label_view(l)) == old(
                self,
            ).visible_feature_labels@.map_values(|l: Label| label_view(l)) + visible_labels_spec(
                *meta,
                eye,
                *view,
                *proj,
                maxima_sq as int,
                rays@,
                rays@.len() as int,
            ),
    {
        queue_labels_for_display(
            &mut self.visible_feature_labels,
            meta,
            rays,
            eye,
            view,
            proj,
            maxima_sq,
        );
    }

    /// Resolve this frame's candidates into drawable labels: each candidate
    /// is laid out from its measured line width and line count (as the text
    /// shaping service reported them), overlapping rectangles are culled by
    /// area, and exactly the surviving candidates come back with their
    /// rectangles, in order. The candidate list is drained either way: the
    /// set is rebuilt from scratch whenever the camera next settles.
    pub fn prepare(
        &mut self,
        measures: &Vec<(u32, u32)>,
        width: u32,
        height: u32,
        line_height: u32,
    ) -> (out: Vec<(Label, TextBounds)>)
        requires
            measures@.len() == old(self).visible_feature_labels@.len(),
            forall|i: int|
                0 <= i < old(self).visible_feature_labels@.len() ==> {
                    let l = #[trigger] old(self).visible_feature_labels@[i];
                    -NDC_LIMIT <= l.pos.0 <= NDC_LIMIT && -NDC_LIMIT <= l.pos.1 <= NDC_LIMIT
                },
            forall|i: int|
                0 <= i < measures@.len() ==> (#[trigger] measures@[i]).0 <= 0x1_0000
                    && measures@[i].1 <= 0x1_0000,
            width <= 0x1_0000,
            height <= 0x1_0000,
            line_height <= 0x1_0000,
        ensures
            final(self).visible_feature_labels@.len() == 0,
            ({
                let labels = old(self).visible_feature_labels@.map_values(
                    |l: Label| label_view(l),
                );
                let items = measured_items_spec(
                    labels,
                    measures@,
                    width as int,
                    height as int,
                    line_height as int,
                );
                out@.map_values(|p: (Label, TextBounds)| (label_view(p.0), p.1)) == survivors_spec(
                    labels,
                    items,
                    cull_spec(items),
                    labels.len() as int,
                )
            }),
    {
        let ghost labels_g: Seq<LabelView> = self.visible_feature_labels@.map_values(
            |l: Label| label_view(l),
        );
        let ghost items_g: Seq<(TextBounds, i64)> = measured_items_spec(
            labels_g,
            measures@,
            width as int,
            height as int,
            line_height as int,
        );
        let n = self.visible_feature_labels.len();
        let mut items: Vec<(TextBounds, i64)> = Vec::new();
        let mut i: usize = 0;
        while i < n
            invariant
                n == self.visible_feature_labels@.len(),
                measures@.len() == n,
                labels_g == self.visible_feature_labels@.map_values(|l: Label| label_view(l)),
                items_g == measured_items_spec(
                    labels_g,
                    measures@,
                    width as int,
                    height as int,
                    line_height as int,
                ),
                forall|k: int|
                    0 <= k < n ==> {
                        let l = #[trigger] self.visible_feature_labels@[k];
                        -NDC_LIMIT <= l.pos.0 <= NDC_LIMIT && -NDC_LIMIT <= l.pos.1 <= NDC_LIMIT
                    },
                forall|k: int|
                    0 <= k < measures@.len() ==> (#[trigger] measures@[k]).0 <= 0x1_0000
                        && measures@[k].1 <= 0x1_0000,
                width <= 0x1_0000,
                height <= 0x1_0000,
                line_height <= 0x1_0000,
                0 <= i <= n,
                items@.len() == i,
                forall|k: int| 0 <= k < i ==> #[trigger] items@[k] == items_g[k],
            decreases n - i,
        {
            let l = &self.visible_feature_labels[i];
            let m = measures[i];
            let b = label_bounds(l.pos, width, height, m.0, m.1, line_height);
            items.push((b, l.feature_area));
            i = i + 1;
        }
        proof {
            assert(items@ =~= items_g);
        }
        let alive = cull_overlapping(&items);
        let mut out: Vec<(Label, TextBounds)> = Vec::new();
        let mut j: usize = 0;
        proof {
            assert(out@.map_values(|p: (Label, TextBounds)| (label_view(p.0), p.1))
                =~= survivors_spec(labels_g, items_g, alive@, 0));
        }
        while j < n
            invariant
                n == self.visible_feature_labels@.len(),
                labels_g == self.visible_feature_labels@.map_values(|l: Label| label_view(l)),
                alive@.len() == n,
                items@.len() == n,
                forall|k: int| 0 <= k < n ==> #[trigger] items@[k] == items_g[k],
                0 <= j <= n,
                out@.map_values(|p: (Label, TextBounds)| (label_view(p.0), p.1)) == survivors_spec(
                    labels_g,
                    items_g,
                    alive@,
                    j as int,
                ),
            decreases n - j,
        {
            let ghost before = out@.map_values(|p: (Label, TextBounds)| (label_view(p.0), p.1));
            if alive[j] {
                let l = &self.visible_feature_labels[j];
                let pair = (
                    Label {
                        text: l.text.clone(),
                        pos: l.pos,
                        color: l.color,
                        feature_area: l.feature_area,
                    },
                    items[j].0,
                );
                proof {
                    assert(label_view(pair.0) == labels_g[j as int]);
                }
                out.push(pair);
                proof {
                    assert(out@.map_values(|p: (Label, TextBounds)| (label_view(p.0), p.1))
                        =~= before.push((labels_g[j as int], items_g[j as int].0)));
                    assert(before.push((labels_g[j as int], items_g[j as int].0)) =~= before
                        + seq![(labels_g[j as int], items_g[j as int].0)]);
                }
            } else {
                proof {
                    assert(before + Seq::<(LabelView, TextBounds)>::empty() =~= before);
                }
            }
            j = j + 1;
        }
        self.visible_feature_labels.clear();
        out
    }
}

/// Law: overlap culling resolves chains by area. For any three candidate
/// rectangles where the first overlaps the second with strictly larger area,
/// the third overlaps the second with strictly larger area, and the first
/// and third are disjoint, exactly the first and third survive: the middle
/// one is eliminated by both of its larger rivals.
pub proof fn lemma_cull_pair_resolution(items: Seq<(TextBounds, i64)>)
    requires
        items.len() == 3,
        rects_overlap(items[0].0, items[1].0),
        rects_overlap(items[1].0, items[2].0),
        !rects_overlap(items[0].0, items[2].0),
        items[0].1 > items[1].1,
        items[2].1 > items[1].1,
    ensures
        cull_spec(items) == seq![true, false, true],
{
    let a0 = Seq::new(items.len(), |i: int| true);
    let a1 = a0.update(1, false);
    assert(rects_overlap(items[1].0, items[0].0) == rects_overlap(items[0].0, items[1].0));
    assert(cull_inner(items, a1, 0, 3) == a1);
    assert(cull_inner(items, a1, 0, 2) == cull_inner(items, a1, 0, 3));
    assert(cull_inner(items, a0, 0, 1) == cull_inner(items, a1, 0, 2));
    assert(cull_outer(items, a0, 0) == cull_outer(items, cull_inner(items, a0, 0, 1), 1));
    assert(cull_outer(items, a1, 1) == cull_outer(items, a1, 2));
    assert(cull_inner(items, a1, 2, 3) == a1);
    assert(cull_outer(items, a1, 2) == cull_outer(items, cull_inner(items, a1, 2, 3), 3));
    assert(cull_outer(items, a1, 3) == a1);
    assert(a1 =~= seq![true, false, true]);
}

} // verus!
