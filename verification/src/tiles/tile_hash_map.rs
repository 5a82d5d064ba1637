//! Which shapes touch which tiles.
use crate::tiles::geometry::Tile;
use crate::tiles::tile_set::{code_tile, encode_tile, lemma_code_of_tile, tile_code, TileSet};
use crate::uuid::Uuid;
use std::collections::{HashMap, HashSet};
use vstd::prelude::*;

verus! {

/// Shapes and tiles, from both sides.
#[verifier::ext_equal]
pub struct GridView {
    /// The shapes at each tile that one was ever added at.
    pub shapes: Map<Tile, Set<Uuid>>,
    /// The tiles of each shape that was ever added.
    pub tiles: Map<Uuid, Set<Tile>>,
}

impl GridView {
    /// No shape was added.
    pub open spec fn empty() -> Self {
        GridView { shapes: Map::empty(), tiles: Map::empty() }
    }

    /// The shape `id` is at `tile`.
    pub open spec fn has(self, tile: Tile, id: Uuid) -> bool {
        self.shapes.contains_key(tile) && self.shapes[tile].contains(id)
    }

    /// `tile` is one of the tiles of the shape `id`.
    pub open spec fn lists(self, id: Uuid, tile: Tile) -> bool {
        self.tiles.contains_key(id) && self.tiles[id].contains(tile)
    }

    /// Both sides say the same.
    pub open spec fn mirrored(self) -> bool {
        forall|tile: Tile, id: Uuid| #[trigger] self.has(tile, id) <==> self.lists(id, tile)
    }

    /// With the shape `id` at `tile`.
    pub open spec fn added(self, tile: Tile, id: Uuid) -> Self {
        GridView {
            shapes: self.shapes.insert(
                tile,
                if self.shapes.contains_key(tile) {
                    self.shapes[tile].insert(id)
                } else {
                    set![id]
                },
            ),
            tiles: self.tiles.insert(
                id,
                if self.tiles.contains_key(id) {
                    self.tiles[id].insert(tile)
                } else {
                    set![tile]
                },
            ),
        }
    }

    /// Without the shape `id` at `tile`. A tile or shape that has been known
    /// stays known, if only with an empty set.
    pub open spec fn removed(self, tile: Tile, id: Uuid) -> Self {
        GridView {
            shapes: if self.shapes.contains_key(tile) {
                self.shapes.insert(tile, self.shapes[tile].remove(id))
            } else {
                self.shapes
            },
            tiles: if self.tiles.contains_key(id) {
                self.tiles.insert(id, self.tiles[id].remove(tile))
            } else {
                self.tiles
            },
        }
    }
}

/// The shapes at each tile, and the tiles of each shape.
pub struct TileHashMap {
    grid: HashMap<u64, HashSet<Uuid>>,
    index: HashMap<Uuid, TileSet>,
}

impl TileHashMap {
    pub closed spec fn view(&self) -> GridView {
        GridView {
            shapes: Map::new(
                |tile: Tile| self.grid@.contains_key(tile_code(tile)),
                |tile: Tile| self.grid@[tile_code(tile)]@,
            ),
            tiles: Map::new(
                |id: Uuid| self.index@.contains_key(id),
                |id: Uuid| self.index@[id]@,
            ),
        }
    }

    pub fn new() -> (map: Self)
        ensures
            map@ == GridView::empty(),
            map@.mirrored(),
    {
        let map = TileHashMap { grid: HashMap::new(), index: HashMap::new() };
        assert(map@ =~= GridView::empty());
        map
    }

    /// No shape is at `tile`.
    pub fn is_empty_at(&self, tile: Tile) -> (empty: bool)
        ensures
            empty == (forall|id: Uuid| !self@.has(tile, id)),
    {
        if let Some(uuids) = self.grid.get(&encode_tile(tile)) {
            proof {
                if uuids@ != Set::<Uuid>::empty() {
                    assert(exists|id: Uuid| uuids@.contains(id)) by {
                        if forall|id: Uuid| !uuids@.contains(id) {
                            assert(uuids@ =~= Set::<Uuid>::empty());
                        }
                    }
                    let id = choose|id: Uuid| uuids@.contains(id);
                    assert(self@.has(tile, id));
                }
            }
            return uuids.is_empty();
        }
        true
    }

    /// The shapes at `tile`; `None` if none was ever added there.
    pub fn get_shapes_at(&mut self, tile: Tile) -> (shapes: Option<&HashSet<Uuid>>)
        ensures
            final(self)@ == old(self)@,
            match shapes {
                Some(s) => old(self)@.shapes.contains_key(tile) && s@ == old(self)@.shapes[tile],
                None => !old(self)@.shapes.contains_key(tile),
            },
    {
        self.grid.get(&encode_tile(tile))
    }

    /// Takes the shape `id` away from `tile`.
    pub fn remove_shape_at(&mut self, tile: Tile, id: Uuid)
        ensures
            final(self)@ == old(self)@.removed(tile, id),
            old(self)@.mirrored() ==> final(self)@.mirrored(),
    {
        broadcast use lemma_code_of_tile;

        let code: u64 = encode_tile(tile);
        if let Some(mut shapes) = self.grid.remove(&code) {
            shapes.remove(&id);
            self.grid.insert(code, shapes);
        }
        if let Some(mut tiles) = self.index.remove(&id) {
            tiles.remove(&tile);
            self.index.insert(id, tiles);
        }
        proof {
            lemma_codes_differ(tile);
            assert(self@ =~= old(self)@.removed(tile, id));
            if old(self)@.mirrored() {
                law_mirrored_is_kept(old(self)@, tile, id);
            }
        }
    }

    /// The tiles of the shape `shape_id`; `None` if it was never added.
    pub fn get_tiles_of(&mut self, shape_id: Uuid) -> (tiles: Option<&TileSet>)
        ensures
            final(self)@ == old(self)@,
            match tiles {
                Some(t) => old(self)@.tiles.contains_key(shape_id) && t@
                    == old(self)@.tiles[shape_id],
                None => !old(self)@.tiles.contains_key(shape_id),
            },
    {
        self.index.get(&shape_id)
    }

    /// Puts the shape `shape_id` at `tile`.
    pub fn add_shape_at(&mut self, tile: Tile, shape_id: Uuid)
        ensures
            final(self)@ == old(self)@.added(tile, shape_id),
            old(self)@.mirrored() ==> final(self)@.mirrored(),
    {
        broadcast use lemma_code_of_tile;

        let tile_set = self.grid.entry(encode_tile(tile)).or_insert(HashSet::new());
        tile_set.insert(shape_id);
        let index_set = self.index.entry(shape_id).or_insert(TileSet::new());
        index_set.insert(tile);
        proof {
            lemma_codes_differ(tile);
            assert(self@ =~= old(self)@.added(tile, shape_id));
            if old(self)@.mirrored() {
                law_mirrored_is_kept(old(self)@, tile, shape_id);
            }
        }
    }

    /// Forgets everything.
    pub fn invalidate(&mut self)
        ensures
            final(self)@ == GridView::empty(),
            final(self)@.mirrored(),
    {
        self.grid.clear();
        self.index.clear();
        assert(self@ =~= GridView::empty());
    }
}

/// Another tile has another code.
proof fn lemma_codes_differ(tile: Tile)
    ensures
        forall|other: Tile| #[trigger] tile_code(other) == tile_code(tile) ==> other == tile,
{
    broadcast use lemma_code_of_tile;

    assert forall|other: Tile| #[trigger] tile_code(other) == tile_code(tile) implies other
        == tile by {
        assert(code_tile(tile_code(other)) == code_tile(tile_code(tile)));
    }
}

/// Adding and removing a shape keep both sides saying the same.
pub proof fn law_mirrored_is_kept(grid: GridView, tile: Tile, id: Uuid)
    requires
        grid.mirrored(),
    ensures
        grid.added(tile, id).mirrored(),
        grid.removed(tile, id).mirrored(),
{
    assert forall|t: Tile, i: Uuid| #[trigger]
        grid.added(tile, id).has(t, i) <==> grid.added(tile, id).lists(i, t) by {
        assert(grid.has(t, i) <==> grid.lists(i, t));
    }
    assert forall|t: Tile, i: Uuid| #[trigger]
        grid.removed(tile, id).has(t, i) <==> grid.removed(tile, id).lists(i, t) by {
        assert(grid.has(t, i) <==> grid.lists(i, t));
    }
}

/// Adding a shape at a tile puts it there, and changes nothing about any
/// other pair of shape and tile.
pub proof fn law_added_shape_is_there(grid: GridView, tile: Tile, id: Uuid)
    ensures
        grid.added(tile, id).has(tile, id),
        grid.added(tile, id).lists(id, tile),
        forall|t: Tile, i: Uuid|
            t != tile || i != id ==> {
                &&& #[trigger] grid.added(tile, id).has(t, i) == grid.has(t, i)
                &&& grid.added(tile, id).lists(i, t) == grid.lists(i, t)
            },
        grid.has(tile, id) && grid.lists(id, tile) ==> grid.added(tile, id) == grid,
{
    if grid.has(tile, id) && grid.lists(id, tile) {
        assert(grid.shapes[tile].insert(id) =~= grid.shapes[tile]);
        assert(grid.tiles[id].insert(tile) =~= grid.tiles[id]);
        assert(grid.added(tile, id) =~= grid);
    }
}

/// Removing a shape from a tile takes it away there, and changes nothing
/// about any other pair of shape and tile.
pub proof fn law_removed_shape_is_gone(grid: GridView, tile: Tile, id: Uuid)
    ensures
        !grid.removed(tile, id).has(tile, id),
        !grid.removed(tile, id).lists(id, tile),
        forall|t: Tile, i: Uuid|
            t != tile || i != id ==> {
                &&& #[trigger] grid.removed(tile, id).has(t, i) == grid.has(t, i)
                &&& grid.removed(tile, id).lists(i, t) == grid.lists(i, t)
            },
{
}

/// Removing a shape undoes adding it where it was not before.
pub proof fn law_remove_undoes_add(grid: GridView, tile: Tile, id: Uuid)
    requires
        !grid.has(tile, id),
        !grid.lists(id, tile),
    ensures
        forall|t: Tile, i: Uuid|
            #![trigger grid.has(t, i)]
            #![trigger grid.added(tile, id).removed(tile, id).has(t, i)]
            grid.added(tile, id).removed(tile, id).has(t, i) == grid.has(t, i),
        forall|t: Tile, i: Uuid|
            #![trigger grid.lists(i, t)]
            #![trigger grid.added(tile, id).removed(tile, id).lists(i, t)]
            grid.added(tile, id).removed(tile, id).lists(i, t) == grid.lists(i, t),
{
}

} // verus!
