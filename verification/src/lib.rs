//! Core of a voxel-world runtime: coordinate math, run-length encoding,
//! terrain grid assembly, chunk registry and streaming queue, ray-voxel
//! targeting, and the block break/place protocol with cross-chunk face
//! culling. Everything here is verified; the surrounding game engine
//! (rendering, input, background task plumbing) lives outside this crate
//! and talks to it through plain values.

pub mod blocks;
pub mod cage;
pub mod chunk;
pub mod chunk_map;
pub mod chunk_queue;
pub mod coords;
pub mod cull;
pub mod edit;
pub mod face;
pub mod gen;
pub mod inventory;
pub mod lifecycle;
pub mod metadata;
pub mod rle;
pub mod target;
pub mod window;
pub mod worldpos;
