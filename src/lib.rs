//! Collider synthesis for scene meshes: decoding vertex and index buffers,
//! recognising nodes marked for collision, finding the mesh-bearing
//! descendants of such nodes, and sequencing the per-node shape builds.
pub mod geometry;
pub mod marker;
pub mod scanner;
pub mod scene;
