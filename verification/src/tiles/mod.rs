//! The tile grid.
pub mod geometry;
pub mod grid_laws;
pub mod laws;
pub mod pending;
pub mod sizes;
pub mod surfaces;
pub mod tile_hash_map;
pub mod tile_set;
pub mod viewbox;
