//! Neighbour resolution on an octahedron whose eight triangular faces are each
//! subdivided into `face_size * face_size` unit triangles.
//!
//! - `tile`: tiles, their orientation, the six directions and their algebra.
//! - `rows`: the rows of a face and the integer square root that finds them.
//! - `adjacency`: the model of the surface and of one step on it.
//! - `octo`: the mesh itself, with the step as executable code.
//! - `laws`: what holds of every mesh and of every step.
//! - `rings`: every walk closes after `4 * face_size` steps.

pub mod adjacency;
pub mod laws;
pub mod octo;
pub mod rings;
pub mod rows;
pub mod tile;
