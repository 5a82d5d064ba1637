//! The surfaces that tiles were painted on.
use crate::tiles::geometry::Tile;
use crate::tiles::tile_set::TileSet;
use vstd::prelude::*;

verus! {

/// The surfaces, by the tiles whose picture one of them holds.
pub struct Surfaces {
    pub cached_tiles: TileSet,
}

impl Surfaces {
    /// The picture of `tile` is cached.
    pub fn has_cached_tile_surface(&self, tile: Tile) -> (cached: bool)
        ensures
            cached == self.cached_tiles@.contains(tile),
    {
        self.cached_tiles.contains(&tile)
    }
}

} // verus!
