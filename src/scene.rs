//! The scene: spheres and the materials they are made of.
use vstd::prelude::*;

use crate::fixed::{bounded, Vec3, ONE};

verus! {

/// Largest magnitude of a sphere's coordinates and radius (16384 units).
pub const SCENE_LIMIT: i64 = 0x4000_0000;

/// How a surface reflects light. Every quantity is in fixed point, in `[0, ONE]`.
#[derive(Clone, Copy, Debug, PartialEq, Eq, Structural)]
pub struct Material {
    pub albedo: Vec3,
    pub roughness: i64,
    pub metallic: i64,
}

/// A sphere of the scene, made of the material at `material_index`.
#[derive(Clone, Copy, Debug, PartialEq, Eq, Structural)]
pub struct Sphere {
    pub position: Vec3,
    pub radius: i64,
    pub material_index: usize,
}

/// An ordered list of spheres and the materials they refer to.
#[derive(Debug)]
pub struct Scene {
    pub spheres: Vec<Sphere>,
    pub materials: Vec<Material>,
}

impl Material {
    /// The albedo, roughness and metallic values all lie in `[0, ONE]`.
    pub open spec fn wf(&self) -> bool {
        &&& 0 <= self.albedo.x <= ONE
        &&& 0 <= self.albedo.y <= ONE
        &&& 0 <= self.albedo.z <= ONE
        &&& 0 <= self.roughness <= ONE
        &&& 0 <= self.metallic <= ONE
    }
}

impl Sphere {
    /// The sphere lies within the region that the renderer handles.
    pub open spec fn wf(&self) -> bool {
        bounded(self.position, SCENE_LIMIT as int) && -SCENE_LIMIT <= self.radius <= SCENE_LIMIT
    }
}

impl Scene {
    /// Every sphere and every material is well formed. A material index out of range
    /// is allowed: such a sphere is drawn with the default material.
    pub open spec fn wf(&self) -> bool {
        &&& forall|i: int| 0 <= i < self.spheres@.len() ==> (#[trigger] self.spheres@[i]).wf()
        &&& forall|i: int| 0 <= i < self.materials@.len() ==> (#[trigger] self.materials@[i]).wf()
    }

    /// The material of a sphere, or the default material when its index is out of range.
    pub open spec fn material_of(&self, s: Sphere) -> Material {
        if s.material_index < self.materials@.len() {
            self.materials@[s.material_index as int]
        } else {
            default_material()
        }
    }

    /// The material that `material_of` describes.
    pub fn material_for(&self, s: &Sphere) -> (r: Material)
        requires
            self.wf(),
        ensures
            r == self.material_of(*s),
            r.wf(),
    {
        if s.material_index < self.materials.len() {
            self.materials[s.material_index]
        } else {
            Material::default()
        }
    }
}

/// White, fully rough, not metallic.
pub open spec fn default_material() -> Material {
    Material { albedo: Vec3 { x: ONE, y: ONE, z: ONE }, roughness: ONE, metallic: 0 }
}

impl Default for Material {
    fn default() -> (r: Material)
        ensures
            r == default_material(),
    {
        Material { albedo: Vec3 { x: ONE, y: ONE, z: ONE }, roughness: ONE, metallic: 0 }
    }
}

impl Default for Sphere {
    fn default() -> (r: Sphere)
        ensures
            r == (Sphere { position: Vec3 { x: 0, y: 0, z: 0 }, radius: ONE, material_index: 0 }),
    {
        Sphere { position: Vec3 { x: 0, y: 0, z: 0 }, radius: ONE, material_index: 0 }
    }
}

} // verus!
