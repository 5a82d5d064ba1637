//! Sets of tiles.
use crate::tiles::geometry::Tile;
use std::collections::HashSet;
use vstd::prelude::*;
use vstd::std_specs::iter::IteratorSpec;

verus! {

/// A tile as one integer: its column above its row.
pub open spec fn tile_code(tile: Tile) -> u64 {
    ((tile.0 as u32 as u64) << 32) | (tile.1 as u32 as u64)
}

/// The tile that an integer stands for.
pub open spec fn code_tile(code: u64) -> Tile {
    Tile((code >> 32) as u32 as i32, code as u32 as i32)
}

/// The tile can be read back from its integer.
pub broadcast proof fn lemma_code_of_tile(tile: Tile)
    ensures
        #[trigger] code_tile(tile_code(tile)) == tile,
{
    let x = tile.0;
    let y = tile.1;
    assert(((((x as u32 as u64) << 32) | (y as u32 as u64)) >> 32) as u32 as i32 == x)
        by (bit_vector);
    assert((((x as u32 as u64) << 32) | (y as u32 as u64)) as u32 as i32 == y) by (bit_vector);
}

/// Every integer stands for a tile.
pub broadcast proof fn lemma_tile_of_code(code: u64)
    ensures
        #[trigger] tile_code(code_tile(code)) == code,
{
    assert((((code >> 32) as u32 as i32 as u32 as u64) << 32) | (
    code as u32 as i32 as u32 as u64) == code) by (bit_vector);
}

/// A tile as one integer.
pub(crate) fn encode_tile(tile: Tile) -> (code: u64)
    ensures
        code == tile_code(tile),
{
    ((tile.0 as u32 as u64) << 32) | (tile.1 as u32 as u64)
}

/// The tile that an integer stands for.
pub(crate) fn decode_tile(code: u64) -> (tile: Tile)
    ensures
        tile == code_tile(code),
{
    Tile((code >> 32) as u32 as i32, code as u32 as i32)
}

/// A set of tiles.
pub struct TileSet {
    codes: HashSet<u64>,
}

impl TileSet {
    /// The tiles of the set.
    pub closed spec fn view(&self) -> Set<Tile> {
        Set::new(|tile: Tile| self.codes@.contains(tile_code(tile)))
    }

    pub fn new() -> (set: Self)
        ensures
            set@ == Set::<Tile>::empty(),
    {
        let set = TileSet { codes: HashSet::new() };
        assert(set@ =~= Set::<Tile>::empty());
        set
    }

    pub fn contains(&self, tile: &Tile) -> (found: bool)
        ensures
            found == self@.contains(*tile),
    {
        self.codes.contains(&encode_tile(*tile))
    }

    /// Puts `tile` into the set; `true` if it was not in it.
    pub fn insert(&mut self, tile: Tile) -> (added: bool)
        ensures
            final(self)@ == old(self)@.insert(tile),
            added == !old(self)@.contains(tile),
    {
        broadcast use lemma_code_of_tile;

        let added: bool = self.codes.insert(encode_tile(tile));
        proof {
            assert forall|t: Tile| tile_code(t) == tile_code(tile) implies t == tile by {
                assert(code_tile(tile_code(t)) == code_tile(tile_code(tile)));
            }
            assert(self@ =~= old(self)@.insert(tile));
        }
        added
    }

    /// Takes `tile` out of the set; `true` if it was in it.
    pub fn remove(&mut self, tile: &Tile) -> (removed: bool)
        ensures
            final(self)@ == old(self)@.remove(*tile),
            removed == old(self)@.contains(*tile),
    {
        broadcast use lemma_code_of_tile;

        let removed: bool = self.codes.remove(&encode_tile(*tile));
        proof {
            assert forall|t: Tile| tile_code(t) == tile_code(*tile) implies t == *tile by {
                assert(code_tile(tile_code(t)) == code_tile(tile_code(*tile)));
            }
            assert(self@ =~= old(self)@.remove(*tile));
        }
        removed
    }

    /// The tiles, each once, in no particular order.
    pub fn to_vec(&self) -> (tiles: Vec<Tile>)
        ensures
            tiles@.no_duplicates(),
            tiles@.to_set() == self@,
    {
        broadcast use {lemma_code_of_tile, lemma_tile_of_code};

        let mut tiles: Vec<Tile> = Vec::new();
        let codes = self.codes.iter();
        let ghost all = codes.remaining().unref();
        for code in it: codes
            invariant
                it.seq().unref() == all,
                tiles@ == all.take(it.index()).map_values(|code: u64| code_tile(code)),
        {
            tiles.push(decode_tile(*code));
            assert(tiles@ =~= all.take(it.index() + 1).map_values(|code: u64| code_tile(code)));
        }
        proof {
            assert(tiles@ =~= all.map_values(|code: u64| code_tile(code)));
            assert forall|i: int, j: int|
                0 <= i < tiles@.len() && 0 <= j < tiles@.len() && i != j implies tiles@[i]
                != tiles@[j] by {
                assert(tile_code(code_tile(all[i])) != tile_code(code_tile(all[j])));
            }
            assert forall|tile: Tile| tiles@.to_set().contains(tile) == self@.contains(tile) by {
                if tiles@.contains(tile) {
                    let i = tiles@.index_of(tile);
                    assert(all.to_set().contains(all[i]));
                }
                if self@.contains(tile) {
                    assert(all.to_set().contains(tile_code(tile)));
                    let i = all.index_of(tile_code(tile));
                    assert(tiles@[i] == tile);
                }
            }
            assert(tiles@.to_set() =~= self@);
        }
        tiles
    }
}

} // verus!
