//! A chunked, lazily materialized store of pixel tiles on an unbounded grid.
//!
//! Cells ([`Tile`]) are grouped into fixed-size [`Chunk`]s, which the
//! [`Tilemap`] creates on demand through a deferred task queue. Each chunk
//! keeps a raster that is rebuilt from its cells whenever it is dirty.

pub mod chunk;
pub mod coords;
pub mod lemmas;
pub mod tile;
pub mod tilemap;

pub use coords::{align_loc_to_chunk, chunk_from_location, tile_from_location};
pub use chunk::Chunk;
pub use tilemap::{chunk_texture_update, handle_tilemap_tasks, Tilemap, TilemapTask};
pub use tile::{Color, Tile, TilemapError};
