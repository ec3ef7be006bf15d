//! Core logic of an interactive globe viewer: tessellation of geographic
//! polygons draped over a sphere, deterministic feature coloring, orbit-camera
//! state, screen-ray visibility testing and label overlap resolution.
//!
//! All geometry in this crate is carried in fixed-point integers so that every
//! computation has an exact, machine-checkable meaning: planar longitude and
//! latitude are micro-degrees, world-space lengths and directions carry 16
//! fractional bits. The thin rendering shell converts to floating point only
//! at the GPU boundary.
use vstd::prelude::*;

pub mod assets;
pub mod camera;
pub mod color;
pub mod geo;
pub mod geom;
pub mod globe;
pub mod labels;
pub mod loader;
pub mod num;
pub mod sphere;
pub mod tess;
pub mod trig;

verus! {

/// Smoke-test entry point kept from the crate's embedding shell.
pub struct Test;

impl Test {
    /// A minimal liveness probe for host embeddings.
    pub fn hello() -> (r: String)
        ensures
            r@ == "Hello, world!"@,
    {
        "Hello, world!".to_owned()
    }
}

} // verus!
