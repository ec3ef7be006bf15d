//! Checks of the stateful pieces: coloring, trigonometry, camera state
//! machine, the globe mesh, assets, and the load scheduler.
use globe_core::assets::{AssetError, AssetRepository, Assets, load_shader};
use globe_core::camera::{AppEvent, Camera};
use globe_core::color::hashable_to_rgb8;
use globe_core::globe::build_globe_geometry;
use globe_core::loader::FeatureManager;
use globe_core::num::{isqrt_u128, FP_ONE};
use globe_core::trig::sin_cos_udeg;
use globe_core::Test;

#[test]
fn hello() {
    assert_eq!(Test::hello(), "Hello, world!");
}

#[test]
fn color_is_deterministic_and_saturated() {
    let a = hashable_to_rgb8("Foo");
    let b = hashable_to_rgb8("Foo");
    assert_eq!(a, b);
    assert_eq!((a.r, a.g, a.b), (176, 255, 245));
    let c = hashable_to_rgb8("Bar");
    assert_eq!((c.r, c.g, c.b), (255, 174, 137));
    for name in ["Foo", "Bar", "", "a much longer feature name"] {
        let col = hashable_to_rgb8(name);
        assert!(col.r == 255 || col.g == 255 || col.b == 255);
    }
}

#[test]
fn circular_functions_hit_the_axes_exactly() {
    assert_eq!(sin_cos_udeg(0), (0, FP_ONE));
    assert_eq!(sin_cos_udeg(90_000_000), (FP_ONE, 0));
    assert_eq!(sin_cos_udeg(180_000_000), (0, -FP_ONE));
    assert_eq!(sin_cos_udeg(270_000_000), (-FP_ONE, 0));
    assert_eq!(sin_cos_udeg(360_000_000), (0, FP_ONE));
    assert_eq!(sin_cos_udeg(-90_000_000), (-FP_ONE, 0));
    // within the quadrant the series is a close approximation
    let (s45, c45) = sin_cos_udeg(45_000_000);
    assert_eq!(s45, 46341);
    assert_eq!(c45, 46341);
}

#[test]
fn isqrt_brackets_its_input() {
    for n in [0u128, 1, 2, 3, 4, 15, 16, 17, 1 << 40, u64::MAX as u128] {
        let r = isqrt_u128(n);
        assert!(r * r <= n);
        assert!(n < (r + 1) * (r + 1));
    }
    assert_eq!(isqrt_u128(144), 12);
}

#[test]
fn globe_mesh_counts_and_indices() {
    let g = build_globe_geometry(4, 3, 100 * FP_ONE);
    assert_eq!(g.vertices.len(), 2 * 4 + 2);
    // the poles sit exactly on the axis
    assert_eq!((g.vertices[0].pos.x, g.vertices[0].pos.y, g.vertices[0].pos.z), (0, 100 * FP_ONE, 0));
    let last = g.vertices.len() - 1;
    assert_eq!((g.vertices[last].pos.x, g.vertices[last].pos.y, g.vertices[last].pos.z), (0, -100 * FP_ONE, 0));
    assert_eq!(g.indices.len(), 6 * 4 * 2);
    assert!(g.indices.iter().all(|&i| (i as usize) < g.vertices.len()));
    let g2 = build_globe_geometry(100, 100, 10_000 * FP_ONE);
    assert_eq!(g2.vertices.len(), 99 * 100 + 2);
    assert_eq!(g2.indices.len(), 6 * 100 * 99);
    assert!(g2.indices.iter().all(|&i| (i as usize) < g2.vertices.len()));
}

#[test]
fn camera_drag_gates_movement() {
    let mut cam = Camera::new(100 * FP_ONE);
    assert!(!cam.movement_in_progress());
    let changed = cam.handle_event(AppEvent::MouseLeft { pressed: true });
    assert!(changed);
    assert!(cam.movement_in_progress());
    // pressing again is no change
    assert!(!cam.handle_event(AppEvent::MouseLeft { pressed: true }));
    let changed = cam.handle_event(AppEvent::MouseLeft { pressed: false });
    assert!(changed);
    assert!(!cam.movement_in_progress());
}

#[test]
fn camera_scroll_sets_and_clears_the_flag() {
    let mut cam = Camera::new(100 * FP_ONE);
    // at the start distance (1.5 radii) the proximity band has room both ways
    let changed = cam.handle_event(AppEvent::MouseScroll { delta: -FP_ONE });
    assert!(changed);
    assert!(cam.movement_in_progress());
    assert!(cam.distance < 150 * FP_ONE);
    let changed = cam.handle_event(AppEvent::MouseScrollStopped);
    assert!(changed);
    assert!(!cam.movement_in_progress());
    // a huge wheel delta (hundreds of pixels) still zooms, with its effect
    // damped, never dropped
    let before = cam.distance;
    assert!(cam.handle_event(AppEvent::MouseScroll { delta: -400 * FP_ONE }));
    assert!(cam.distance < before);
    assert!(cam.distance >= 1);
}

#[test]
fn camera_motion_only_turns_while_dragging() {
    let mut cam = Camera::new(100 * FP_ONE);
    cam.update();
    let pitch0 = cam.pitch;
    let yaw0 = cam.yaw;
    assert!(!cam.handle_event(AppEvent::MouseMotion { x: 3 * FP_ONE, y: 2 * FP_ONE }));
    assert_eq!((cam.pitch, cam.yaw), (pitch0, yaw0));
    cam.handle_event(AppEvent::MouseLeft { pressed: true });
    assert!(cam.handle_event(AppEvent::MouseMotion { x: 3 * FP_ONE, y: 2 * FP_ONE }));
    assert!(cam.pitch != pitch0 || cam.yaw != yaw0);
    // pitch never reaches the poles
    for _ in 0..200 {
        cam.handle_event(AppEvent::MouseMotion { x: 0, y: -(0x10_0000) });
    }
    assert!(cam.pitch <= 89_999_999);
    assert!(cam.pitch >= -89_999_999);
}

#[test]
fn camera_uniform_is_a_look_at_and_a_perspective() {
    let cam = Camera::new(100 * FP_ONE);
    let u = cam.build_camera_uniform(800, 600).unwrap();
    assert_eq!(u.eye, cam.eye);
    // looking down negative z from (0, 0, -1.5r): right is -x, up is +y
    let v = u.view;
    assert_eq!((v.r0.x, v.r0.y, v.r0.z, v.r0.w), (-FP_ONE, 0, 0, 0));
    assert_eq!((v.r1.x, v.r1.y, v.r1.z, v.r1.w), (0, FP_ONE, 0, 0));
    assert_eq!((v.r2.x, v.r2.y, v.r2.z, v.r2.w), (0, 0, -FP_ONE, -150 * FP_ONE));
    assert_eq!((v.r3.x, v.r3.y, v.r3.z, v.r3.w), (0, 0, 0, FP_ONE));
    // a square 90-degree field of view scales y by exactly one
    let p = u.proj;
    assert_eq!(p.r1.y, FP_ONE);
    assert_eq!(p.r0.y, 0);
    assert!(p.r0.x > 0 && p.r0.x < FP_ONE);
    assert!(p.r2.z < 0);
    assert!(p.r2.w < 0);
    assert_eq!((p.r3.x, p.r3.y, p.r3.z, p.r3.w), (0, 0, -FP_ONE, 0));
}

#[test]
fn camera_update_is_idempotent() {
    let mut cam = Camera::new(100 * FP_ONE);
    cam.handle_event(AppEvent::MouseLeft { pressed: true });
    cam.handle_event(AppEvent::MouseMotion { x: 5 * FP_ONE, y: -4 * FP_ONE });
    cam.update();
    let eye1 = cam.eye;
    cam.update();
    assert_eq!(cam.eye, eye1);
}

#[test]
fn second_request_while_loading_is_rejected() {
    let mut gate = Assets::new();
    assert!(gate.request().is_ok());
    // the first fetch is still in flight: the second is dropped, not queued
    assert_eq!(gate.request().unwrap_err(), AssetError::Interrupted);
    assert_eq!(gate.request().unwrap_err(), AssetError::Interrupted);
    gate.fulfill();
    assert!(gate.request().is_ok());
}

#[test]
fn scheduler_cycles_and_retains_on_failure() {
    let mut fm = FeatureManager::new(3);
    assert_eq!(fm.pending(), Some(0));
    // the fetched layer failed to parse: no replacement, cursor advances
    assert!(!fm.complete_load(false));
    assert_eq!(fm.pending(), Some(1));
    // this one loads: mesh replaced, nothing pending
    assert!(fm.complete_load(true));
    assert_eq!(fm.pending(), None);
    fm.queue();
    assert_eq!(fm.pending(), Some(2));
    // the cursor wraps around the fixed list
    assert!(fm.complete_load(true));
    fm.queue();
    assert_eq!(fm.pending(), Some(0));
}

#[test]
fn asset_repository_serves_first_match() {
    let mut repo = AssetRepository::new();
    repo.insert(String::from("shaders/globe.wgsl"), vec![1, 2, 3]);
    repo.insert(String::from("fonts/main.ttf"), vec![9]);
    assert_eq!(load_shader(&repo, "shaders/globe.wgsl").unwrap(), &vec![1, 2, 3]);
    assert_eq!(repo.retrieve("fonts/main.ttf").unwrap(), &vec![9]);
    assert_eq!(repo.retrieve("missing.bin").unwrap_err(), AssetError::NotFound);
}
