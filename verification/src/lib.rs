//! In-memory chunk columns of a voxel world, in two formats: paletted
//! sections backed by bit-packed index arrays, and flat sections laid out
//! in one arena per column.

pub mod bitpack;
pub mod chunk;
pub mod codec;
pub mod containers;
pub mod cursor;
pub mod error;
pub mod model;
pub mod palette;
