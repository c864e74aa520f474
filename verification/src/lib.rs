//! Exact geometry core of a small OpenGL terrain renderer.
//!
//! The renderer itself (window, shaders, textures, draw calls) is ordinary
//! unverified plumbing; what is verified here is the geometry it relies on:
//! bounding-box construction, the box-to-world transform, heightfield
//! sampling with barycentric interpolation, the slab-method ray/AABB
//! intersection test, and the camera and entity movement rules.
//!
//! All coordinates are exact rational scalars (an `i128` numerator and
//! denominator), so every contract speaks about the mathematical value of
//! each result rather than a floating-point approximation.
#![allow(non_snake_case)]

pub mod rat;
pub mod types;
pub mod mesh;
pub mod maths;
pub mod entity;
pub mod terrain;
pub mod camera;
pub mod light;
