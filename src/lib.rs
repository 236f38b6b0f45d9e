//! Decoding of TPQ tiled map containers and assembly of their tiles into one mosaic.

pub mod encode;
pub mod error;
pub mod directory;
pub mod header;
pub mod mosaic;
pub mod tiles;

pub use error::TpqError;
pub use header::read_tpq_u32;
