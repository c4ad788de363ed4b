//! Lantern: a progressive ray tracer for a small scene of spheres.
//!
//! Every quantity is an integer in fixed point (`fixed::ONE` stands for 1.0), so that
//! intersection, shading and accumulation are exact integer computations whose
//! contracts are proved. The camera holds one unit ray per pixel; the renderer traces
//! each through the scene with one rough-mirror bounce, adds the colour to a running
//! sum, and packs the tone-mapped mean into RGBA pixels.

pub mod camera;
pub mod fixed;
pub mod lantern;
pub mod ray;
pub mod scene;
pub mod util;
