use vstd::prelude::*;
use crate::camera::Camera;
use crate::color::Color3;
use crate::image::Image;
use crate::material::Material;
use crate::shape::Shape;

verus! {

/// An index into a scene's material collection.
pub type MaterialId = usize;

/// Everything the renderer reads: shapes, materials, the flat background
/// color, an optional environment image, and the camera. Immutable once
/// rendering starts.
pub struct Scene {
    pub shapes: Vec<Shape>,
    pub materials: Vec<Material>,
    pub world_color: Color3,
    pub sky: Option<Image>,
    pub camera: Camera,
}

impl Scene {
    /// Every shape's material reference points into the material collection,
    /// and the environment image, when present, is well formed.
    pub open spec fn wf(&self) -> bool {
        &&& forall|i: int|
            0 <= i < self.shapes@.len() ==> (#[trigger] self.shapes@[i]).spec_material()
                < self.materials@.len()
        &&& match self.sky {
            Option::Some(img) => img.wf(),
            Option::None => true,
        }
    }

    /// An empty scene with a black background and no environment.
    pub fn new(camera: Camera) -> (r: Scene)
        ensures
            r.wf(),
            r.shapes@.len() == 0,
            r.materials@.len() == 0,
            r.world_color == Color3::spec_black(),
            r.sky is None,
            r.camera == camera,
    {
        Scene {
            shapes: Vec::new(),
            materials: Vec::new(),
            world_color: Color3::black(),
            sky: Option::None,
            camera,
        }
    }

    /// Adds a shape; its material reference must already be valid.
    pub fn add_shape(&mut self, s: Shape)
        requires
            old(self).wf(),
            s.spec_material() < old(self).materials@.len(),
        ensures
            final(self).wf(),
            final(self).shapes@ == old(self).shapes@.push(s),
            final(self).materials@ == old(self).materials@,
            final(self).world_color == old(self).world_color,
            final(self).sky == old(self).sky,
            final(self).camera == old(self).camera,
    {
        self.shapes.push(s);
    }

    /// Adds a material and returns its identifier.
    pub fn add_material(&mut self, m: Material) -> (r: MaterialId)
        requires
            old(self).wf(),
        ensures
            final(self).wf(),
            final(self).materials@ == old(self).materials@.push(m),
            r == old(self).materials@.len(),
            final(self).shapes@ == old(self).shapes@,
            final(self).world_color == old(self).world_color,
            final(self).sky == old(self).sky,
            final(self).camera == old(self).camera,
    {
        let r = self.materials.len();
        self.materials.push(m);
        r
    }

    pub fn get_material(&self, id: MaterialId) -> (r: &Material)
        requires
            id < self.materials@.len(),
        ensures
            *r == self.materials@[id as int],
    {
        &self.materials[id]
    }

    /// The shape collection, in insertion order.
    pub fn shapes(&self) -> (r: &Vec<Shape>)
        ensures
            r@ == self.shapes@,
    {
        &self.shapes
    }
}

} // verus!
