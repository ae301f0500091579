//! The verified core of a path tracer: bounding boxes, the bounding-volume
//! hierarchy, nearest-hit selection and the decisions of the integrator.
//!
//! The crate orders and selects; it does no floating-point arithmetic. Numbers
//! are [`scalar::Scalar`] values, bit patterns of binary64, and every function
//! here is exact on them. Where a decision rests on a sum, a quotient or a
//! root, the caller computes it and hands it over; where a search alternates
//! between arithmetic and decisions, it is a query that asks for one and takes
//! the other ([`hittable_list::ListQuery`], [`bvh_query::BvhQuery`]).
//!
//! Objects, materials and textures of a scene are named by their index in the
//! tables that the caller keeps.

// Numbers and vectors.
pub mod scalar;
pub mod vec3;
pub mod ray;
pub mod onb;
pub mod rtweekend;

// Boxes, hits and the structures that search for them.
pub mod aabb;
pub mod hittable;
pub mod hittable_list;
pub mod sort;
pub mod bvh_node;
pub mod bvh_query;

// Shapes.
pub mod sphere;
pub mod aarect;
pub mod abox;
pub mod constant_medium;

// Shading.
pub mod material;
pub mod pdf;
pub mod texture;
pub mod perlin;
pub mod integrator;
pub mod color;
