//! Orbit camera state machine.
//!
//! Two independent flags, `dragging` and `scrolling`, gate the expensive
//! label work: movement is in progress while either is set. Scroll deltas
//! zoom with an exponential damping of how close the eye already is to the
//! surface, and only while the normalized proximity stays in its band; drag
//! deltas turn pitch and yaw with a logarithmic damping, pitch clamped just
//! short of the poles. `update` recomputes the Cartesian eye from the
//! spherical state and is idempotent.
use vstd::prelude::*;

use crate::num::{FP_ONE, tdiv, isqrt_u128, isqrt_spec, lemma_sq_le, lemma_mul_abs_bound,
    lemma_tdiv_abs_bound};
use crate::sphere::{Mat4Fixed, Vec3Fixed, Vec4Fixed, MAT_LIMIT, NEAR_CLIP_FP, WORLD_LIMIT,
    normalize_dir, normalize_dir_spec};
use crate::trig::{exp_q16, exp_q16_spec, ln1p_q16, ln1p_q16_spec, sin_cos_udeg, sin_udeg_spec,
    cos_udeg_spec};

verus! {

/// Host-delivered input events, as plain values: pixel deltas and scroll
/// steps carry 16 fractional bits.
pub enum AppEvent {
    /// The left mouse button went down or up.
    MouseLeft { pressed: bool },
    /// The scroll wheel turned.
    MouseScroll { delta: i64 },
    /// The host's quiescence timer saw scrolling stop.
    MouseScrollStopped,
    /// The cursor moved while captured.
    MouseMotion { x: i64, y: i64 },
    /// A key went down or up; no concern of the camera's.
    Key { pressed: bool },
    /// The viewport changed size; no concern of the camera's.
    Resized { width: u32, height: u32 },
}

/// Lower edge of the proximity band, fixed point (1.1).
pub const MULT_MIN_FP: i64 = 72090;

/// Upper edge of the proximity band, fixed point (5/3).
pub const MULT_MAX_FP: i64 = 109227;

/// Pitch clamp: a quarter turn minus one micro-degree.
pub const PITCH_LIMIT_UDEG: i64 = 89_999_999;

/// The drag gain: 0.0015 radians per pixel of motion, expressed in
/// micro-degrees per fixed-point unit.
pub const DRAG_GAIN_UDEG: i64 = 85_944;

/// Per-event deltas are clamped to this magnitude before damping: about
/// sixteen million whole units, far past anything a host delivers, so the
/// clamp only keeps the arithmetic in provable range.
pub const EVENT_DELTA_LIMIT: i64 = 0x100_0000_0000;

/// The orbit camera: spherical state, the derived eye, and the two movement
/// flags.
pub struct Camera {
    pub distance: i64,
    pub globe_radius: i64,
    pub pitch: i64,
    pub yaw: i64,
    pub eye: Vec3Fixed,
    pub target: Vec3Fixed,
    pub up: Vec3Fixed,
    pub vertical_fov: i64,
    pub far_plane: i64,
    pub dragging: bool,
    pub scrolling: bool,
}

/// The normalized proximity of the eye to the globe: the eye distance as a
/// multiple of the radius, remapped against the band's fixed multipliers and
/// clamped into `[0, 1]` — zero at the inner multiplier, one at the outer.
/// (The multiple is capped at four before the remap; any value past the
/// outer multiplier clamps to one either way, and the cap keeps the
/// arithmetic in range.)
pub open spec fn proximity_spec(eye_len: int, globe_radius: int) -> int {
    let mult = tdiv(eye_len * FP_ONE as int, globe_radius);
    let mc = if mult > 4 * FP_ONE as int {
        4 * FP_ONE as int
    } else {
        mult
    };
    let norm = tdiv(
        (mc - MULT_MIN_FP as int) * FP_ONE as int,
        MULT_MAX_FP as int - MULT_MIN_FP as int,
    );
    if norm < 0 {
        0
    } else if norm > FP_ONE as int {
        FP_ONE as int
    } else {
        norm
    }
}

/// Integer length of the eye vector.
pub open spec fn eye_len_spec(eye: Vec3Fixed) -> int {
    isqrt_spec((eye.x * eye.x + eye.y * eye.y + eye.z * eye.z) as nat) as int
}

/// An angle folded into one turn either way.
pub open spec fn wrap_turn_spec(a: int) -> int {
    if a >= 0 {
        a % 360_000_000
    } else {
        -((-a) % 360_000_000)
    }
}

/// Pitch clamped just short of the poles.
pub open spec fn clamp_pitch_spec(p: int) -> int {
    if p < -PITCH_LIMIT_UDEG as int {
        -PITCH_LIMIT_UDEG as int
    } else if p > PITCH_LIMIT_UDEG as int {
        PITCH_LIMIT_UDEG as int
    } else {
        p
    }
}

/// A raw event delta clamped to the per-event magnitude limit.
pub open spec fn clamp_delta_spec(d: int) -> int {
    if d < -EVENT_DELTA_LIMIT as int {
        -EVENT_DELTA_LIMIT as int
    } else if d > EVENT_DELTA_LIMIT as int {
        EVENT_DELTA_LIMIT as int
    } else {
        d
    }
}

/// Distance clamped into the world.
pub open spec fn clamp_distance_spec(d: int) -> int {
    if d < 1 {
        1
    } else if d > WORLD_LIMIT as int {
        WORLD_LIMIT as int
    } else {
        d
    }
}

/// What one scroll step adds to the distance: the raw delta scaled by the
/// exponential of the proximity and a hundredth of the globe radius.
pub open spec fn scroll_step_spec(norm: int, globe_radius: int, delta: int) -> int {
    let damped = tdiv(delta * exp_q16_spec(norm), FP_ONE as int);
    let scaled = tdiv(damped * globe_radius, FP_ONE as int);
    tdiv(scaled, 100)
}

/// What one drag delta turns an angle by: the raw delta scaled by the
/// logarithmic damping and the fixed gain.
pub open spec fn drag_step_spec(norm: int, d: int) -> int {
    let damped = tdiv(d * ln1p_q16_spec(norm), FP_ONE as int);
    tdiv(damped * DRAG_GAIN_UDEG as int, FP_ONE as int)
}

/// The Cartesian eye of the spherical state.
pub open spec fn eye_of_spherical_spec(pitch: int, yaw: int, distance: int) -> Vec3Fixed {
    let sy = sin_udeg_spec(yaw);
    let cy = cos_udeg_spec(yaw);
    let sp = sin_udeg_spec(pitch);
    let cp = cos_udeg_spec(pitch);
    Vec3Fixed {
        x: tdiv(tdiv(sy * cp, FP_ONE as int) * distance, FP_ONE as int) as i64,
        y: tdiv(sp * distance, FP_ONE as int) as i64,
        z: tdiv(tdiv(cy * cp, FP_ONE as int) * distance, FP_ONE as int) as i64,
    }
}

impl Camera {
    /// The camera's state stays in provable ranges: distance positive and
    /// within the world, pitch clamped short of the poles, yaw folded into
    /// one turn, the eye within the world.
    pub open spec fn wf(&self) -> bool {
        &&& 0 < self.distance <= WORLD_LIMIT
        &&& 0 < self.globe_radius <= WORLD_LIMIT
        &&& -PITCH_LIMIT_UDEG <= self.pitch <= PITCH_LIMIT_UDEG
        &&& -360_000_000 <= self.yaw <= 360_000_000
        &&& self.eye.in_world()
        &&& self.target.in_world()
        &&& self.up.is_direction()
        &&& 0 < self.far_plane <= WORLD_LIMIT
        &&& 0 < self.vertical_fov < 180_000_000
    }

    /// A fresh camera: eye on the negative z axis at three halves of the
    /// globe radius, level pitch, square vertical field of view, far plane
    /// at twice the start distance, both movement flags clear.
    pub fn new(globe_radius: i64) -> (c: Camera)
        requires
            0 < globe_radius,
            3 * globe_radius <= WORLD_LIMIT,
        ensures
            c.wf(),
            c.globe_radius == globe_radius,
            c.distance == 3 * globe_radius / 2,
            c.pitch == 0,
            c.yaw == 0,
            c.eye == (Vec3Fixed { x: 0, y: 0, z: (-(3 * globe_radius / 2)) as i64 }),
            c.target == (Vec3Fixed { x: 0, y: 0, z: 0 }),
            c.up == (Vec3Fixed { x: 0, y: FP_ONE, z: 0 }),
            c.vertical_fov == 90_000_000,
            c.far_plane == 2 * (3 * globe_radius / 2),
            c.dragging == false,
            c.scrolling == false,
    {
        let distance = 3 * globe_radius / 2;
        Camera {
            distance,
            globe_radius,
            pitch: 0,
            yaw: 0,
            eye: Vec3Fixed { x: 0, y: 0, z: -distance },
            target: Vec3Fixed { x: 0, y: 0, z: 0 },
            up: Vec3Fixed { x: 0, y: FP_ONE, z: 0 },
            vertical_fov: 90_000_000,
            far_plane: 2 * distance,
            dragging: false,
            scrolling: false,
        }
    }

    /// Label work is gated on this: movement is in progress while a drag or
    /// a scroll is underway.
    pub fn movement_in_progress(&self) -> (r: bool)
        ensures
            r == (self.dragging || self.scrolling),
    {
        self.dragging || self.scrolling
    }

    /// The normalized proximity of this camera's eye to its globe.
    fn proximity(&self) -> (r: i64)
        requires
            self.wf(),
        ensures
            r == proximity_spec(eye_len_spec(self.eye), self.globe_radius as int),
            0 <= r <= FP_ONE,
    {
        proof {
            lemma_sq_le(self.eye.x as int, WORLD_LIMIT as int);
            lemma_sq_le(self.eye.y as int, WORLD_LIMIT as int);
            lemma_sq_le(self.eye.z as int, WORLD_LIMIT as int);
        }
        let n2: i64 = self.eye.x * self.eye.x + self.eye.y * self.eye.y + self.eye.z * self.eye.z;
        let len_u = isqrt_u128(n2 as u128);
        proof {
            assert(n2 as u128 as int == n2 as int);
            assert((len_u as int) <= 0x1_0000_0000) by (nonlinear_arith)
                requires
                    (len_u as int) >= 0,
                    (len_u as int) * (len_u as int) <= n2 as int,
                    n2 as int <= 0x4000_0000_0000_0000,
            ;
        }
        let len: i64 = len_u as i64;
        proof {
            assert(len as int == eye_len_spec(self.eye));
            lemma_mul_abs_bound(len as int, FP_ONE as int, 0x1_0000_0000, FP_ONE as int);
            vstd::arithmetic::div_mod::lemma_div_pos_is_pos(
                len as int * FP_ONE as int,
                self.globe_radius as int,
            );
        }
        let mult: i64 = (len * FP_ONE) / self.globe_radius;
        let mc: i64 = if mult > 4 * FP_ONE {
            4 * FP_ONE
        } else {
            mult
        };
        proof {
            lemma_mul_abs_bound(mc as int - MULT_MIN_FP as int, FP_ONE as int, 0x4_0000, FP_ONE as int);
        }
        let num: i64 = (mc - MULT_MIN_FP) * FP_ONE;
        let q: i64 = if num >= 0 {
            num / (MULT_MAX_FP - MULT_MIN_FP)
        } else {
            -((-num) / (MULT_MAX_FP - MULT_MIN_FP))
        };
        proof {
            lemma_tdiv_abs_bound(num as int, MULT_MAX_FP as int - MULT_MIN_FP as int, 0x4_0000_0000);
        }
        if q < 0 {
            0
        } else if q > FP_ONE {
            FP_ONE
        } else {
            q
        }
    }

    /// Feed one input event through the state machine; the result says
    /// whether anything observable changed, driving redraw-on-change.
    ///
    /// A left-button edge sets or clears `dragging`. A scroll delta moves
    /// the camera only while the normalized proximity still has room in the
    /// direction of travel, with exponential damping, and marks `scrolling`;
    /// the host's scroll-stopped event clears it. Motion while dragging
    /// turns pitch (clamped short of the poles) and yaw (folded into one
    /// turn) with logarithmic damping. Every delta is clamped to the
    /// per-event magnitude limit before damping.
    pub fn handle_event(&mut self, event: AppEvent) -> (changed: bool)
        requires
            old(self).wf(),
        ensures
            final(self).wf(),
            final(self).globe_radius == old(self).globe_radius,
            final(self).target == old(self).target,
            final(self).up == old(self).up,
            final(self).vertical_fov == old(self).vertical_fov,
            final(self).far_plane == old(self).far_plane,
            final(self).eye == old(self).eye,
            ({
                let norm = proximity_spec(eye_len_spec(old(self).eye), old(self).globe_radius as int);
                match event {
                    AppEvent::MouseLeft { pressed } => *final(self) == (Camera {
                        dragging: pressed,
                        ..*old(self)
                    }) && changed == (old(self).dragging != pressed),
                    AppEvent::MouseScroll { delta } => {
                        let lower = delta < 0 && norm > 0;
                        let upper = delta > 0 && norm < FP_ONE as int;
                        if lower || upper {
                            changed == true && *final(self) == (Camera {
                                distance: clamp_distance_spec(
                                    old(self).distance + scroll_step_spec(
                                        norm,
                                        old(self).globe_radius as int,
                                        clamp_delta_spec(delta as int),
                                    ),
                                ) as i64,
                                scrolling: true,
                                ..*old(self)
                            })
                        } else {
                            changed == false && *final(self) == *old(self)
                        }
                    },
                    AppEvent::MouseScrollStopped => changed == true && *final(self) == (Camera {
                        scrolling: false,
                        ..*old(self)
                    }),
                    AppEvent::Key { .. } => changed == false && *final(self) == *old(self),
                    AppEvent::Resized { .. } => changed == false && *final(self) == *old(self),
                    AppEvent::MouseMotion { x, y } => {
                        changed == old(self).dragging && if old(self).dragging {
                            *final(self) == (Camera {
                                pitch: clamp_pitch_spec(
                                    old(self).pitch - drag_step_spec(
                                        norm,
                                        clamp_delta_spec(y as int),
                                    ),
                                ) as i64,
                                yaw: wrap_turn_spec(
                                    old(self).yaw - drag_step_spec(
                                        norm,
                                        clamp_delta_spec(x as int),
                                    ),
                                ) as i64,
                                ..*old(self)
                            })
                        } else {
                            *final(self) == *old(self)
                        }
                    },
                }
            }),
    {
        let norm = self.proximity();
        match event {
            AppEvent::MouseLeft { pressed } => {
                let temp = self.dragging;
                self.dragging = pressed;
                temp != pressed
            },
            AppEvent::MouseScroll { delta } => {
                let lower = delta < 0 && norm > 0;
                let upper = delta > 0 && norm < FP_ONE;
                if lower || upper {
                    let d: i64 = if delta < -EVENT_DELTA_LIMIT {
                        -EVENT_DELTA_LIMIT
                    } else if delta > EVENT_DELTA_LIMIT {
                        EVENT_DELTA_LIMIT
                    } else {
                        delta
                    };
                    let e = exp_q16(norm);
                    proof {
                        lemma_mul_abs_bound(d as int, e as int, EVENT_DELTA_LIMIT as int, 0x8_0000);
                        lemma_tdiv_abs_bound(
                            d as int * e as int,
                            FP_ONE as int,
                            0x800_0000_0000,
                        );
                    }
                    let damped: i64 = {
                        let p: i64 = d * e;
                        if p >= 0 {
                            p / FP_ONE
                        } else {
                            -((-p) / FP_ONE)
                        }
                    };
                    proof {
                        lemma_mul_abs_bound(
                            damped as int,
                            self.globe_radius as int,
                            0x800_0000_0000,
                            WORLD_LIMIT as int,
                        );
                        lemma_tdiv_abs_bound(
                            damped as int * self.globe_radius as int,
                            FP_ONE as int,
                            0x8_0000_0000_0000_0000,
                        );
                    }
                    let scaled_wide: i128 = {
                        let p: i128 = (damped as i128) * (self.globe_radius as i128);
                        if p >= 0 {
                            p / (FP_ONE as i128)
                        } else {
                            -((-p) / (FP_ONE as i128))
                        }
                    };
                    let step_wide: i128 = if scaled_wide >= 0 {
                        scaled_wide / 100
                    } else {
                        -((-scaled_wide) / 100)
                    };
                    let moved: i128 = (self.distance as i128) + step_wide;
                    self.distance = if moved < 1 {
                        1
                    } else if moved > WORLD_LIMIT as i128 {
                        WORLD_LIMIT
                    } else {
                        moved as i64
                    };
                    self.scrolling = true;
                    true
                } else {
                    false
                }
            },
            AppEvent::MouseScrollStopped => {
                self.scrolling = false;
                true
            },
            AppEvent::MouseMotion { x, y } => {
                if self.dragging {
                    let cx: i64 = if x < -EVENT_DELTA_LIMIT {
                        -EVENT_DELTA_LIMIT
                    } else if x > EVENT_DELTA_LIMIT {
                        EVENT_DELTA_LIMIT
                    } else {
                        x
                    };
                    let cy: i64 = if y < -EVENT_DELTA_LIMIT {
                        -EVENT_DELTA_LIMIT
                    } else if y > EVENT_DELTA_LIMIT {
                        EVENT_DELTA_LIMIT
                    } else {
                        y
                    };
                    let lnf = ln1p_q16(norm);
                    let dp = drag_step(norm, lnf, cy);
                    let dy = drag_step(norm, lnf, cx);
                    let pitch0 = self.pitch - dp;
                    self.pitch = if pitch0 < -PITCH_LIMIT_UDEG {
                        -PITCH_LIMIT_UDEG
                    } else if pitch0 > PITCH_LIMIT_UDEG {
                        PITCH_LIMIT_UDEG
                    } else {
                        pitch0
                    };
                    let yaw0 = self.yaw - dy;
                    self.yaw = if yaw0 >= 0 {
                        yaw0 % 360_000_000
                    } else {
                        -((-yaw0) % 360_000_000)
                    };
                }
                self.dragging
            },
            _ => false,
        }
    }

    /// Recompute the Cartesian eye from the spherical state; everything else
    /// is untouched, so a second call changes nothing.
    pub fn update(&mut self)
        requires
            old(self).wf(),
        ensures
            final(self).wf(),
            *final(self) == (Camera {
                eye: eye_of_spherical_spec(
                    old(self).pitch as int,
                    old(self).yaw as int,
                    old(self).distance as int,
                ),
                ..*old(self)
            }),
    {
        let (sy, cy) = sin_cos_udeg(self.yaw);
        let (sp, cp) = sin_cos_udeg(self.pitch);
        let xf = crate::num::fp_mul_unit(sy, cp);
        let zf = crate::num::fp_mul_unit(cy, cp);
        self.eye = Vec3Fixed {
            x: crate::num::fp_scale(xf, self.distance),
            y: crate::num::fp_scale(sp, self.distance),
            z: crate::num::fp_scale(zf, self.distance),
        };
    }
}

/// The per-frame camera uniform: the eye and the view and projection
/// matrices, all in fixed point; the GPU shell converts them to floats on
/// upload.
pub struct CameraUniform {
    pub eye: Vec3Fixed,
    pub view: Mat4Fixed,
    pub proj: Mat4Fixed,
}

/// The cross product of two direction-scale vectors.
pub open spec fn cross_spec(a: Vec3Fixed, b: Vec3Fixed) -> (int, int, int) {
    (a.y * b.z - a.z * b.y, a.z * b.x - a.x * b.z, a.x * b.y - a.y * b.x)
}

/// A matrix entry clamped into the admissible range.
pub open spec fn clamp_mat_spec(v: int) -> int {
    if v < -MAT_LIMIT as int {
        -MAT_LIMIT as int
    } else if v > MAT_LIMIT as int {
        MAT_LIMIT as int
    } else {
        v
    }
}

/// The right-handed look-at matrix of an eye, a target and an up hint, in
/// fixed point; `None` when the eye sits on the target or looks along the
/// up hint.
pub open spec fn look_at_spec(eye: Vec3Fixed, target: Vec3Fixed, up: Vec3Fixed) -> Option<
    Mat4Fixed,
> {
    match normalize_dir_spec(
        target.x - eye.x as int,
        target.y - eye.y as int,
        target.z - eye.z as int,
    ) {
        Option::None => Option::None,
        Option::Some(f) => {
            let sraw = cross_spec(f, up);
            match normalize_dir_spec(sraw.0, sraw.1, sraw.2) {
                Option::None => Option::None,
                Option::Some(s) => {
                    let uraw = cross_spec(s, f);
                    let ux = tdiv(uraw.0, FP_ONE as int);
                    let uy = tdiv(uraw.1, FP_ONE as int);
                    let uz = tdiv(uraw.2, FP_ONE as int);
                    let tx = -tdiv(s.x * eye.x + s.y * eye.y + s.z * eye.z, FP_ONE as int);
                    let ty = -tdiv(ux * eye.x + uy * eye.y + uz * eye.z, FP_ONE as int);
                    let tz = tdiv(f.x * eye.x + f.y * eye.y + f.z * eye.z, FP_ONE as int);
                    Option::Some(
                        Mat4Fixed {
                            r0: Vec4Fixed { x: s.x, y: s.y, z: s.z, w: tx as i64 },
                            r1: Vec4Fixed { x: ux as i64, y: uy as i64, z: uz as i64, w: ty as i64 },
                            r2: Vec4Fixed {
                                x: (-f.x) as i64,
                                y: (-f.y) as i64,
                                z: (-f.z) as i64,
                                w: tz as i64,
                            },
                            r3: Vec4Fixed { x: 0, y: 0, z: 0, w: FP_ONE },
                        },
                    )
                },
            }
        },
    }
}

/// The perspective matrix of a vertical field of view (micro-degrees), a
/// viewport, and near and far planes (fixed units); `None` when the field
/// of view or the planes degenerate.
pub open spec fn perspective_spec(
    fovy_udeg: int,
    width: int,
    height: int,
    near: int,
    far: int,
) -> Option<Mat4Fixed> {
    let sh = sin_udeg_spec(fovy_udeg / 2);
    let ch = cos_udeg_spec(fovy_udeg / 2);
    if sh <= 0 || far <= near {
        Option::None
    } else {
        let t = tdiv(ch * FP_ONE as int, sh);
        let aspect = tdiv(width * FP_ONE as int, height);
        let a00 = tdiv(t * FP_ONE as int, aspect);
        let a22 = -tdiv((far + near) * FP_ONE as int, far - near);
        let a23 = clamp_mat_spec(-tdiv(2 * far * near, far - near));
        Option::Some(
            Mat4Fixed {
                r0: Vec4Fixed { x: a00 as i64, y: 0, z: 0, w: 0 },
                r1: Vec4Fixed { x: 0, y: t as i64, z: 0, w: 0 },
                r2: Vec4Fixed { x: 0, y: 0, z: a22 as i64, w: a23 as i64 },
                r3: Vec4Fixed { x: 0, y: 0, z: (-(FP_ONE as int)) as i64, w: 0 },
            },
        )
    }
}

/// The whole uniform of a camera and viewport.
pub open spec fn camera_uniform_spec(c: Camera, width: int, height: int) -> Option<CameraUniform> {
    match (look_at_spec(c.eye, c.target, c.up), perspective_spec(
        c.vertical_fov as int,
        width,
        height,
        NEAR_CLIP_FP as int,
        c.far_plane as int,
    )) {
        (Option::Some(view), Option::Some(proj)) => Option::Some(
            CameraUniform { eye: c.eye, view, proj },
        ),
        _ => Option::None,
    }
}

impl Camera {
    /// Build this frame's camera uniform: the homogeneous eye, the look-at
    /// view matrix from the eye to the target, and the perspective
    /// projection for the viewport, in fixed point and within matrix range.
    /// `None` exactly when the geometry degenerates: the eye on the target,
    /// the view along the up hint, a flat field of view, or a far plane at
    /// or inside the near clip.
    pub fn build_camera_uniform(&self, width: u32, height: u32) -> (r: Option<CameraUniform>)
        requires
            self.wf(),
            1 <= width <= 0x1_0000,
            1 <= height <= 0x1_0000,
        ensures
            r == camera_uniform_spec(*self, width as int, height as int),
            r is Some ==> (r->Some_0).view.in_range() && (r->Some_0).proj.in_range(),
    {
        let fx = self.target.x - self.eye.x;
        let fy = self.target.y - self.eye.y;
        let fz = self.target.z - self.eye.z;
        let f = match normalize_dir(fx, fy, fz) {
            Some(f) => f,
            None => {
                return None;
            },
        };
        proof {
            lemma_mul_abs_bound(f.y as int, self.up.z as int, FP_ONE as int, FP_ONE as int);
            lemma_mul_abs_bound(f.z as int, self.up.y as int, FP_ONE as int, FP_ONE as int);
            lemma_mul_abs_bound(f.z as int, self.up.x as int, FP_ONE as int, FP_ONE as int);
            lemma_mul_abs_bound(f.x as int, self.up.z as int, FP_ONE as int, FP_ONE as int);
            lemma_mul_abs_bound(f.x as int, self.up.y as int, FP_ONE as int, FP_ONE as int);
            lemma_mul_abs_bound(f.y as int, self.up.x as int, FP_ONE as int, FP_ONE as int);
        }
        let sx = f.y * self.up.z - f.z * self.up.y;
        let sy = f.z * self.up.x - f.x * self.up.z;
        let sz = f.x * self.up.y - f.y * self.up.x;
        let s = match normalize_dir(sx, sy, sz) {
            Some(s) => s,
            None => {
                return None;
            },
        };
        proof {
            lemma_mul_abs_bound(s.y as int, f.z as int, FP_ONE as int, FP_ONE as int);
            lemma_mul_abs_bound(s.z as int, f.y as int, FP_ONE as int, FP_ONE as int);
            lemma_mul_abs_bound(s.z as int, f.x as int, FP_ONE as int, FP_ONE as int);
            lemma_mul_abs_bound(s.x as int, f.z as int, FP_ONE as int, FP_ONE as int);
            lemma_mul_abs_bound(s.x as int, f.y as int, FP_ONE as int, FP_ONE as int);
            lemma_mul_abs_bound(s.y as int, f.x as int, FP_ONE as int, FP_ONE as int);
        }
        let uxr = s.y * f.z - s.z * f.y;
        let uyr = s.z * f.x - s.x * f.z;
        let uzr = s.x * f.y - s.y * f.x;
        let ux = tdiv_i64(uxr, FP_ONE);
        let uy = tdiv_i64(uyr, FP_ONE);
        let uz = tdiv_i64(uzr, FP_ONE);
        proof {
            lemma_tdiv_abs_bound(uxr as int, FP_ONE as int, 2 * FP_ONE as int);
            lemma_tdiv_abs_bound(uyr as int, FP_ONE as int, 2 * FP_ONE as int);
            lemma_tdiv_abs_bound(uzr as int, FP_ONE as int, 2 * FP_ONE as int);
            assert((2 * FP_ONE as int) * FP_ONE as int == 2 * (FP_ONE as int * FP_ONE as int))
                by (nonlinear_arith);
            lemma_mul_abs_bound(s.x as int, self.eye.x as int, FP_ONE as int, WORLD_LIMIT as int);
            lemma_mul_abs_bound(s.y as int, self.eye.y as int, FP_ONE as int, WORLD_LIMIT as int);
            lemma_mul_abs_bound(s.z as int, self.eye.z as int, FP_ONE as int, WORLD_LIMIT as int);
            lemma_mul_abs_bound(ux as int, self.eye.x as int, 0x2_0000, WORLD_LIMIT as int);
            lemma_mul_abs_bound(uy as int, self.eye.y as int, 0x2_0000, WORLD_LIMIT as int);
            lemma_mul_abs_bound(uz as int, self.eye.z as int, 0x2_0000, WORLD_LIMIT as int);
            lemma_mul_abs_bound(f.x as int, self.eye.x as int, FP_ONE as int, WORLD_LIMIT as int);
            lemma_mul_abs_bound(f.y as int, self.eye.y as int, FP_ONE as int, WORLD_LIMIT as int);
            lemma_mul_abs_bound(f.z as int, self.eye.z as int, FP_ONE as int, WORLD_LIMIT as int);
        }
        let tx = -tdiv_i64(s.x * self.eye.x + s.y * self.eye.y + s.z * self.eye.z, FP_ONE);
        let ty = -tdiv_i64(ux * self.eye.x + uy * self.eye.y + uz * self.eye.z, FP_ONE);
        let tz = tdiv_i64(f.x * self.eye.x + f.y * self.eye.y + f.z * self.eye.z, FP_ONE);
        proof {
            lemma_tdiv_abs_bound(
                s.x as int * self.eye.x as int + s.y as int * self.eye.y as int + s.z as int
                    * self.eye.z as int,
                FP_ONE as int,
                0xC000_0000,
            );
            lemma_tdiv_abs_bound(
                ux as int * self.eye.x as int + uy as int * self.eye.y as int + uz as int
                    * self.eye.z as int,
                FP_ONE as int,
                0x1_8000_0000,
            );
            lemma_tdiv_abs_bound(
                f.x as int * self.eye.x as int + f.y as int * self.eye.y as int + f.z as int
                    * self.eye.z as int,
                FP_ONE as int,
                0xC000_0000,
            );
        }
        let view = Mat4Fixed {
            r0: Vec4Fixed { x: s.x, y: s.y, z: s.z, w: tx },
            r1: Vec4Fixed { x: ux, y: uy, z: uz, w: ty },
            r2: Vec4Fixed { x: -f.x, y: -f.y, z: -f.z, w: tz },
            r3: Vec4Fixed { x: 0, y: 0, z: 0, w: FP_ONE },
        };
        let (sh, ch) = crate::trig::sin_cos_udeg(self.vertical_fov / 2);
        if sh <= 0 || self.far_plane <= NEAR_CLIP_FP {
            return None;
        }
        proof {
            lemma_mul_abs_bound(ch as int, FP_ONE as int, FP_ONE as int, FP_ONE as int);
            vstd::arithmetic::div_mod::lemma_div_pos_is_pos(ch as int * FP_ONE as int, sh as int);
            vstd::arithmetic::div_mod::lemma_div_is_ordered(
                ch as int * FP_ONE as int,
                0x1_0000_0000,
                sh as int,
            );
            vstd::arithmetic::div_mod::lemma_div_is_ordered_by_denominator(
                0x1_0000_0000,
                1,
                sh as int,
            );
        }
        let t = (ch * FP_ONE) / sh;
        proof {
            lemma_mul_abs_bound(width as int, FP_ONE as int, 0x1_0000, FP_ONE as int);
            vstd::arithmetic::div_mod::lemma_div_pos_is_pos(
                width as int * FP_ONE as int,
                height as int,
            );
            vstd::arithmetic::div_mod::lemma_div_is_ordered(
                height as int,
                width as int * FP_ONE as int,
                height as int,
            );
            vstd::arithmetic::div_mod::lemma_div_by_self(height as int);
        }
        let aspect = (width as i64 * FP_ONE) / height as i64;
        proof {
            lemma_mul_abs_bound(t as int, FP_ONE as int, 0x1_0000_0000, FP_ONE as int);
            assert(0x1_0000_0000_0000int * aspect as int >= 0x1_0000_0000_0000)
                by (nonlinear_arith)
                requires
                    aspect as int >= 1,
            ;
            lemma_tdiv_abs_bound(t as int * FP_ONE as int, aspect as int, 0x1_0000_0000_0000);
        }
        let a00 = tdiv_i64(t * FP_ONE, aspect);
        proof {
            lemma_mul_abs_bound(
                self.far_plane as int + NEAR_CLIP_FP as int,
                FP_ONE as int,
                0x8000_0000,
                FP_ONE as int,
            );
            assert(0x8000_0000_0000int * (self.far_plane as int - NEAR_CLIP_FP as int)
                >= 0x8000_0000_0000) by (nonlinear_arith)
                requires
                    self.far_plane as int - NEAR_CLIP_FP as int >= 1,
            ;
            lemma_tdiv_abs_bound(
                (self.far_plane + NEAR_CLIP_FP) as int * FP_ONE as int,
                self.far_plane as int - NEAR_CLIP_FP as int,
                0x8000_0000_0000,
            );
        }
        let a22 = -tdiv_i64((self.far_plane + NEAR_CLIP_FP) * FP_ONE, self.far_plane - NEAR_CLIP_FP);
        let a23_wide: i128 = {
            let n: i128 = 2 * (self.far_plane as i128) * (NEAR_CLIP_FP as i128);
            let d: i128 = (self.far_plane - NEAR_CLIP_FP) as i128;
            -(n / d)
        };
        let a23: i64 = if a23_wide < -(MAT_LIMIT as i128) {
            -MAT_LIMIT
        } else if a23_wide > MAT_LIMIT as i128 {
            MAT_LIMIT
        } else {
            a23_wide as i64
        };
        let proj = Mat4Fixed {
            r0: Vec4Fixed { x: a00, y: 0, z: 0, w: 0 },
            r1: Vec4Fixed { x: 0, y: t, z: 0, w: 0 },
            r2: Vec4Fixed { x: 0, y: 0, z: a22, w: a23 },
            r3: Vec4Fixed { x: 0, y: 0, z: -FP_ONE, w: 0 },
        };
        Some(CameraUniform { eye: self.eye, view, proj })
    }
}

/// Truncating division on machine words, positive divisor.
fn tdiv_i64(n: i64, d: i64) -> (r: i64)
    requires
        d > 0,
        n > i64::MIN,
    ensures
        r as int == tdiv(n as int, d as int),
{
    if n >= 0 {
        n / d
    } else {
        -((-n) / d)
    }
}

/// One drag delta's damped angle step, with the logarithm precomputed.
fn drag_step(norm: i64, lnf: i64, d: i64) -> (r: i64)
    requires
        0 <= norm <= 2 * FP_ONE,
        lnf == ln1p_q16_spec(norm as int),
        0 <= lnf <= 2 * FP_ONE,
        -EVENT_DELTA_LIMIT <= d <= EVENT_DELTA_LIMIT,
    ensures
        r == drag_step_spec(norm as int, d as int),
        -0x2000_0000_0000_0000 <= r <= 0x2000_0000_0000_0000,
{
    proof {
        lemma_mul_abs_bound(d as int, lnf as int, EVENT_DELTA_LIMIT as int, 0x2_0000);
        lemma_tdiv_abs_bound(d as int * lnf as int, FP_ONE as int, 0x2000_0000_0000);
    }
    let damped: i64 = {
        let p: i64 = d * lnf;
        if p >= 0 {
            p / FP_ONE
        } else {
            -((-p) / FP_ONE)
        }
    };
    proof {
        lemma_mul_abs_bound(damped as int, DRAG_GAIN_UDEG as int, 0x2000_0000_0000, 0x2_0000);
        lemma_tdiv_abs_bound(
            damped as int * DRAG_GAIN_UDEG as int,
            FP_ONE as int,
            0x2000_0000_0000_0000,
        );
    }
    let p: i64 = damped * DRAG_GAIN_UDEG;
    if p >= 0 {
        p / FP_ONE
    } else {
        -((-p) / FP_ONE)
    }
}

/// Law: recomputing the eye is idempotent — a second `update` leaves the
/// camera exactly as the first did, whether or not input arrived in
/// between, as long as the spherical state is unchanged.
pub proof fn lemma_update_idempotent(c: Camera)
    ensures
        (Camera {
            eye: eye_of_spherical_spec(c.pitch as int, c.yaw as int, c.distance as int),
            ..(Camera {
                eye: eye_of_spherical_spec(c.pitch as int, c.yaw as int, c.distance as int),
                ..c
            })
        }) == (Camera {
            eye: eye_of_spherical_spec(c.pitch as int, c.yaw as int, c.distance as int),
            ..c
        }),
{
}

} // verus!
