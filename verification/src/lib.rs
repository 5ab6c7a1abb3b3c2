//! A sample-based path tracer: rays from a thin-lens camera are followed
//! through a scene of spheres, bounce as the surface materials scatter them,
//! and bring back a colour; many samples are summed for each pixel.
//!
//! All numbers are fixed-point scalars with saturating arithmetic (see
//! [`fixed`]), so that every function is total and says exactly what it
//! returns.  Randomness enters through one function that draws 32 bits;
//! every function that uses a draw has a companion that takes the draw as
//! an argument and whose result is determined by its arguments.
//!
//! - [`fixed`], [`vec3`], [`ray`]: scalars, vectors, rays.
//! - [`random`]: the source of random draws.
//! - [`hittable`], [`sphere`]: intersection of rays with the scene.
//! - [`material`]: diffuse, metal and clear surfaces.
//! - [`camera`]: from image positions to rays.
//! - [`utils`]: sampling of directions and the colour of a ray.
//! - [`render`]: the sample loop for pixels, rows and images.
//! - [`scene`]: the random scene.
//! - [`image`]: the text of an image.
//! - [`config`]: what is refused before a render starts.
pub mod camera;
pub mod config;
pub mod fixed;
pub mod hittable;
pub mod image;
pub mod material;
pub mod random;
pub mod ray;
pub mod render;
pub mod scene;
pub mod sphere;
pub mod utils;
pub mod vec3;
