pub mod aabb;
pub mod accelerator;
pub mod camera;
pub mod color;
pub mod error;
pub mod hdr;
pub mod image;
pub mod integrator;
pub mod material;
pub mod math;
pub mod queue;
pub mod random;
pub mod renderer;
pub mod scene;
pub mod shape;
pub mod vector;
