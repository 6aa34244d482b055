//! Core of an offline Monte Carlo renderer.
//!
//! The library owns everything about the render that is discrete: the tile
//! scheduler and its exact partition of the image, the shared framebuffer and
//! the per-worker scratch buffers with byte-precise write contracts, the work
//! queue and completion accounting of the worker pool, construction of the
//! bounding volume hierarchy over order-embedded coordinates, the permutation
//! tables of the noise texture, and the estimator's path-termination rule.
//! The scene's scalar sampling — intersections, scattering, interpolation —
//! happens in the program around the library, which hands coordinates in
//! through the order embedding described in `aabb`.

pub mod aabb;
pub mod bvh;
pub mod framebuffer;
pub mod material;
pub mod perlin;
pub mod radiance;
mod rng;
pub mod texture;
pub mod tile;
pub mod work;
