//! Procedural triangle-mesh generation for a tree of parametric shape
//! instances: mesh builders for box, wedge, cylinder and geodesic sphere
//! primitives, a scene flattener that assembles one indexed global buffer,
//! and a material table that deduplicates quantized colors.
//!
//! Vertex positions are kept symbolic: every vertex is a [`mesh::VertexRule`]
//! that says how to compute the position from the instance's size. All index
//! bookkeeping, topology and deduplication is verified here; numeric
//! evaluation of the rules (and all file I/O) is left to the caller.

pub mod flatten;
pub mod material;
pub mod mesh;
pub mod primitives;
pub mod scene;
pub mod sphere;
