//! What the walk, the ring, the sizes and the shapes of the grid come to, in
//! terms of columns, rows and pixels.
use crate::tiles::geometry::{half, law_walk_visits_each_tile_once, Tile, TileRect};
use crate::tiles::sizes::{
    ceiling, paint_edge, screen_edge, slot_edge, ATLAS_MIN_SLOTS_SIDE, TILE_PAINT_SIZE_CAP,
};
use crate::tiles::tile_hash_map::GridView;
use crate::tiles::viewbox::{TileViewbox, Viewbox};
use crate::uuid::Uuid;
use vstd::prelude::*;

verus! {

/// Half of a number is the number nearest to zero of those within half a unit.
pub proof fn law_half_rounds_towards_zero(v: int)
    ensures
        v >= 0 ==> 2 * half(v) <= v <= 2 * half(v) + 1,
        v <= 0 ==> 2 * half(v) - 1 <= v <= 2 * half(v),
        half(-v) == -half(v),
{
}

/// A rectangle has the tiles between its first and its last column and between
/// its first and its last row, these included.
pub proof fn law_rectangle_is_bounded_by_its_corners(rect: TileRect, tile: Tile)
    ensures
        rect.has_tile(tile) <==> {
            &&& rect.0 <= tile.0 && tile.0 <= rect.2
            &&& rect.1 <= tile.1 && tile.1 <= rect.3
        },
        rect.ordered() <==> rect.0 <= rect.2 && rect.1 <= rect.3,
        rect.ordered() <==> rect.has_tile(Tile(rect.0, rect.1)),
{
}

/// A walk visits the columns and rows from the first to the last, without the
/// last ones unless it is inclusive, each tile once, row after row and each row
/// from left to right.
pub proof fn law_walk_goes_row_by_row(rect: TileRect, inclusive: bool)
    requires
        rect.0 <= rect.2,
        rect.1 <= rect.3,
    ensures
        ({
            let walk = rect.walk(inclusive);
            let more = if inclusive {
                1int
            } else {
                0int
            };
            &&& walk.len() == (rect.2 - rect.0 + more) * (rect.3 - rect.1 + more)
            &&& forall|x: int, y: int| #[trigger]
                walk.contains((x, y)) <==> {
                    &&& rect.0 <= x < rect.2 + more
                    &&& rect.1 <= y < rect.3 + more
                }
            &&& forall|i: int, j: int|
                #![trigger walk[i], walk[j]]
                0 <= i < j < walk.len() ==> walk[i].1 < walk[j].1 || (walk[i].1 == walk[j].1
                    && walk[i].0 < walk[j].0)
        }),
{
    law_walk_visits_each_tile_once(rect, inclusive);
    let walk = rect.walk(inclusive);
    let w = rect.span_x(inclusive);
    assert forall|i: int, j: int|
        #![trigger walk[i], walk[j]]
        0 <= i < j < walk.len() implies walk[i].1 < walk[j].1 || (walk[i].1 == walk[j].1
        && walk[i].0 < walk[j].0) by {
        assert(w > 0) by {
            if w == 0 {
                assert(0 * rect.span_y(inclusive) == 0) by (nonlinear_arith);
            }
        }
        vstd::arithmetic::div_mod::lemma_div_is_ordered(i, j, w);
        vstd::arithmetic::div_mod::lemma_fundamental_div_mod(i, w);
        vstd::arithmetic::div_mod::lemma_fundamental_div_mod(j, w);
    }
}

/// The tiles of interest reach as many columns and rows beyond those in view
/// as the ring is wide, on each side, and the center is half way through the
/// columns and rows in view. An update shows the same as starting anew.
pub proof fn law_view_is_surrounded_evenly(viewbox: Viewbox, interest: i32, tiles: TileViewbox)
    requires
        viewbox.ring_fits(interest),
        viewbox.extent_fits(),
        tiles.shows(viewbox, interest),
    ensures
        tiles.visible_rect == viewbox.tiles,
        tiles.interest == interest,
        viewbox.tiles.0 - tiles.interest_rect.0 == interest,
        viewbox.tiles.1 - tiles.interest_rect.1 == interest,
        tiles.interest_rect.2 - viewbox.tiles.2 == interest,
        tiles.interest_rect.3 - viewbox.tiles.3 == interest,
        viewbox.tiles.0 <= viewbox.tiles.2 ==> 2 * tiles.center.0 <= viewbox.tiles.2
            - viewbox.tiles.0 <= 2 * tiles.center.0 + 1,
        viewbox.tiles.1 <= viewbox.tiles.3 ==> 2 * tiles.center.1 <= viewbox.tiles.3
            - viewbox.tiles.1 <= 2 * tiles.center.1 + 1,
        viewbox.tiles.0 >= viewbox.tiles.2 ==> 2 * tiles.center.0 - 1 <= viewbox.tiles.2
            - viewbox.tiles.0 <= 2 * tiles.center.0,
        viewbox.tiles.1 >= viewbox.tiles.3 ==> 2 * tiles.center.1 - 1 <= viewbox.tiles.3
            - viewbox.tiles.1 <= 2 * tiles.center.1,
{
    law_half_rounds_towards_zero(viewbox.tiles.2 - viewbox.tiles.0);
    law_half_rounds_towards_zero(viewbox.tiles.3 - viewbox.tiles.1);
}

/// A tile is painted at its edge at full resolution, unless that is under one
/// pixel or over the cap; on the screen nothing caps it.
pub proof fn law_edges_are_kept_within_their_limits(edge: int)
    ensures
        1 <= edge <= TILE_PAINT_SIZE_CAP ==> paint_edge(edge) == edge,
        edge > TILE_PAINT_SIZE_CAP ==> paint_edge(edge) == TILE_PAINT_SIZE_CAP,
        edge < 1 ==> paint_edge(edge) == 1,
        1 <= edge ==> screen_edge(edge) == edge,
        edge < 1 ==> screen_edge(edge) == 1,
{
}

/// The edge of a slot is the largest that is no larger than the painted tile
/// and leaves the atlas its least number of slots on a side, or one pixel where
/// none does.
pub proof fn law_slot_is_the_largest_that_fits(paint: int, atlas: int)
    ensures
        ({
            let slot = slot_edge(paint, atlas);
            &&& 1 <= slot
            &&& slot > 1 ==> slot <= paint && slot * ATLAS_MIN_SLOTS_SIDE <= atlas
            &&& slot < paint ==> (slot + 1) * ATLAS_MIN_SLOTS_SIDE > atlas
        }),
{
}

/// A fraction rounded up is the least integer that is not below it.
pub proof fn law_ceiling_is_the_least_above(num: int, den: int, n: int)
    requires
        den > 0,
    ensures
        n >= ceiling(num, den) <==> n * den >= num,
{
    let c = ceiling(num, den);
    let q = (-num) / den;
    vstd::arithmetic::div_mod::lemma_fundamental_div_mod(-num, den);
    assert(0 <= (-num) % den < den);
    assert(den * q <= -num < den * q + den);
    assert((-q - 1) * den == -(den * q) - den && (-q) * den == -(den * q)) by (nonlinear_arith);
    if n >= c {
        assert(n * den >= c * den) by (nonlinear_arith)
            requires
                n >= c,
                den > 0,
        ;
    } else {
        assert(n * den <= (c - 1) * den) by (nonlinear_arith)
            requires
                n <= c - 1,
                den > 0,
        ;
    }
}

/// A shape that is added at a tile is one of the shapes there, and the tile is
/// one of its tiles; a tile or shape that was not known has nothing else. The
/// sets of all other tiles and shapes stay what they were.
pub proof fn law_adding_a_shape_reaches_both_sides(grid: GridView, tile: Tile, id: Uuid)
    ensures
        ({
            let after = grid.added(tile, id);
            &&& after.shapes.dom() == grid.shapes.dom().insert(tile)
            &&& after.tiles.dom() == grid.tiles.dom().insert(id)
            &&& forall|other: Uuid| #[trigger]
                after.shapes[tile].contains(other) <==> other == id || (grid.shapes.contains_key(
                    tile,
                ) && grid.shapes[tile].contains(other))
            &&& forall|other: Tile| #[trigger]
                after.tiles[id].contains(other) <==> other == tile || (grid.tiles.contains_key(id)
                    && grid.tiles[id].contains(other))
            &&& forall|t: Tile| t != tile ==> #[trigger] after.shapes[t] == grid.shapes[t]
            &&& forall|i: Uuid| i != id ==> #[trigger] after.tiles[i] == grid.tiles[i]
        }),
        GridView::empty().shapes.dom() == Set::<Tile>::empty(),
        GridView::empty().tiles.dom() == Set::<Uuid>::empty(),
{
    let after = grid.added(tile, id);
    assert(after.shapes.dom() =~= grid.shapes.dom().insert(tile));
    assert(after.tiles.dom() =~= grid.tiles.dom().insert(id));
    assert forall|t: Tile| t != tile implies #[trigger] after.shapes[t] == grid.shapes[t] by {
    }
    assert forall|i: Uuid| i != id implies #[trigger] after.tiles[i] == grid.tiles[i] by {
    }
}

/// A shape that is removed from a tile is no longer one of the shapes there,
/// nor is the tile one of its tiles. Known tiles and shapes stay known, and all
/// else about their sets stays what it was.
pub proof fn law_removing_a_shape_reaches_both_sides(grid: GridView, tile: Tile, id: Uuid)
    ensures
        ({
            let after = grid.removed(tile, id);
            &&& after.shapes.dom() == grid.shapes.dom()
            &&& after.tiles.dom() == grid.tiles.dom()
            &&& forall|t: Tile, i: Uuid|
                grid.shapes.contains_key(t) ==> (#[trigger] after.shapes[t].contains(i) <==> (t
                    != tile || i != id) && grid.shapes[t].contains(i))
            &&& forall|t: Tile, i: Uuid|
                grid.tiles.contains_key(i) ==> (#[trigger] after.tiles[i].contains(t) <==> (t
                    != tile || i != id) && grid.tiles[i].contains(t))
        }),
{
    let after = grid.removed(tile, id);
    assert(after.shapes.dom() =~= grid.shapes.dom());
    assert(after.tiles.dom() =~= grid.tiles.dom());
}

/// A shape is at a tile if it is one of the shapes there, and a tile is listed
/// for a shape if it is one of its tiles.
pub proof fn law_both_sides_are_read_alike(grid: GridView, tile: Tile, id: Uuid)
    ensures
        grid.has(tile, id) <==> grid.shapes.contains_key(tile) && grid.shapes[tile].contains(id),
        grid.lists(id, tile) <==> grid.tiles.contains_key(id) && grid.tiles[id].contains(tile),
        grid.mirrored() ==> (grid.shapes.contains_key(tile) && grid.shapes[tile].contains(id) <==>
            grid.tiles.contains_key(id) && grid.tiles[id].contains(tile)),
{
    assert(grid.mirrored() ==> (grid.has(tile, id) <==> grid.lists(id, tile)));
}

} // verus!
