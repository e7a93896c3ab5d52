//! Procedural mesh generation and seam stitching.
//!
//! A [`Face`] is a rectangular grid patch with a triangulation and four border
//! loops; an [`EdgeJoin`] names two border loops of distinct faces; a
//! [`Shape3`] merges faces into one indexed mesh and closes every join with a
//! strip of triangles. All index arithmetic is proved free of overflow, and the
//! exact shape of every index buffer is part of the contracts.
pub mod error;
pub mod vertex;
pub mod grid;
pub mod face;
pub mod seam;
pub mod shape;
pub mod storage;
pub mod heightmap;

pub use error::MeshError;
pub use face::{Face, Mesh};
pub use seam::stitch;
pub use shape::{EdgeJoin, Shape3};
pub use storage::{MeshStorage, MeshStorageError};
pub use heightmap::HeightMap;
pub use vertex::Vertex;
