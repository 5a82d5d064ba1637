//! The tiles that wait to be rendered, and in which order.
use crate::tiles::geometry::{fits_i32, half, Tile, TileRect};
use crate::tiles::surfaces::Surfaces;
use crate::tiles::viewbox::TileViewbox;
use core::cmp::Ordering;
use vstd::prelude::*;

verus! {

/// Room for the tiles of an ordinary viewport: 24 by 12.
const VIEWPORT_DEFAULT_CAPACITY: usize = 288;

/// The rectangle whose tiles are taken up.
pub open spec fn taken_up(tile_viewbox: TileViewbox, only_visible: bool) -> TileRect {
    if only_visible {
        tile_viewbox.visible_rect
    } else {
        tile_viewbox.interest_rect
    }
}

/// How far column `x` and row `y` are from the middle of `rect`, squared.
pub open spec fn distance(rect: TileRect, x: int, y: int) -> int {
    let dx = x - half(rect.0 + rect.2);
    let dy = y - half(rect.1 + rect.3);
    dx * dx + dy * dy
}

/// The numbers by which the tiles of `rect` are ordered are values of type
/// `i32`. A rectangle with a reversed side has no tiles, and no such numbers.
pub open spec fn orderable(rect: TileRect) -> bool {
    rect.ordered() ==> countable(rect)
}

/// The numbers that come up in a walk over `rect` and in measuring its steps
/// are values of type `i32`.
pub open spec fn countable(rect: TileRect) -> bool {
    let walk = rect.walk(true);
    &&& rect.walkable(true)
    &&& fits_i32(rect.0 + rect.2)
    &&& fits_i32(rect.1 + rect.3)
    &&& forall|i: int|
        0 <= i < walk.len() ==> {
            let (x, y) = #[trigger] walk[i];
            let dx = x - half(rect.0 + rect.2);
            let dy = y - half(rect.1 + rect.3);
            &&& fits_i32(x)
            &&& fits_i32(y)
            &&& fits_i32(dx)
            &&& fits_i32(dy)
            &&& fits_i32(dx * dx)
            &&& fits_i32(dy * dy)
            &&& fits_i32(dx * dx + dy * dy)
        }
}

/// The tiles of `rect` in the order of a walk, each with its distance.
pub open spec fn measured(rect: TileRect) -> Seq<(i32, Tile)> {
    if rect.ordered() {
        rect.walk(true).map_values(
            |p: (int, int)| (distance(rect, p.0, p.1) as i32, Tile(p.0 as i32, p.1 as i32)),
        )
    } else {
        Seq::empty()
    }
}

/// `order` has the tiles of `rect`, the farthest first.
pub open spec fn farthest_first(rect: TileRect, order: Seq<(i32, Tile)>) -> bool {
    &&& order.to_multiset() == measured(rect).to_multiset()
    &&& forall|i: int, j: int| 0 <= i <= j < order.len() ==> order[i].0 >= order[j].0
}

/// Those tiles of `order` that are visible or not and cached or not, in the
/// same order.
pub open spec fn group(
    order: Seq<(i32, Tile)>,
    visible: TileRect,
    cached: Set<Tile>,
    is_visible: bool,
    is_cached: bool,
) -> Seq<Tile> {
    order.map_values(|entry: (i32, Tile)| entry.1).filter(
        in_group(visible, cached, is_visible, is_cached),
    )
}

/// A tile belongs to a group.
pub open spec fn in_group(
    visible: TileRect,
    cached: Set<Tile>,
    is_visible: bool,
    is_cached: bool,
) -> spec_fn(Tile) -> bool {
    |tile: Tile| visible.has_tile(tile) == is_visible && cached.contains(tile) == is_cached
}

/// Of two tiles the farther one comes first.
fn farther_first(a: &(i32, Tile), b: &(i32, Tile)) -> (order: Ordering)
    ensures
        order == (if a.0 > b.0 {
            Ordering::Less
        } else if a.0 == b.0 {
            Ordering::Equal
        } else {
            Ordering::Greater
        }),
{
    if a.0 > b.0 {
        Ordering::Less
    } else if a.0 == b.0 {
        Ordering::Equal
    } else {
        Ordering::Greater
    }
}

/// Sorts tiles by distance, the farthest first.
///
/// Calls `slice::sort_unstable_by` of the standard library with
/// [`farther_first`], which is a total order of the distances. Taken from its
/// documentation: the slice holds the same items afterwards, and none comes
/// before one that the comparison puts first. Which of two tiles at the same
/// distance comes first is left open.
#[verifier::external_body]
fn sort_farthest_first(order: &mut Vec<(i32, Tile)>)
    ensures
        final(order)@.to_multiset() == old(order)@.to_multiset(),
        forall|i: int, j: int|
            0 <= i <= j < final(order)@.len() ==> final(order)@[i].0 >= final(order)@[j].0,
{
    order.sort_unstable_by(|a, b| farther_first(a, b));
}

/// The tiles that are going to be rendered.
pub struct PendingTiles {
    /// What is left to render; the last one comes next.
    pub list: Vec<Tile>,
    /// The tiles of `tile_rect` with their distance, the farthest first.
    pub tile_order: Vec<(i32, Tile)>,
    pub tile_rect: TileRect,
    pub visible_cached: Vec<Tile>,
    pub visible_uncached: Vec<Tile>,
    pub interest_cached: Vec<Tile>,
    pub interest_uncached: Vec<Tile>,
}

impl PendingTiles {
    /// The tiles of `rect` are arranged for rendering where `visible` is in
    /// view and `cached` need no painting. What is rendered first stands last
    /// in the list: visible tiles before others, of these cached ones before
    /// others, and of these the ones close to the middle before others.
    pub open spec fn arranges(self, rect: TileRect, visible: TileRect, cached: Set<Tile>) -> bool {
        let order = self.tile_order@;
        &&& self.tile_rect == rect
        &&& farthest_first(rect, order)
        &&& self.visible_cached@ == group(order, visible, cached, true, true)
        &&& self.visible_uncached@ == group(order, visible, cached, true, false)
        &&& self.interest_cached@ == group(order, visible, cached, false, true)
        &&& self.interest_uncached@ == group(order, visible, cached, false, false)
        &&& self.list@ == self.interest_uncached@ + self.interest_cached@ + self.visible_uncached@
            + self.visible_cached@
    }

    pub fn new() -> (pending: Self)
        ensures
            pending.list@ == Seq::<Tile>::empty(),
            pending.tile_order@ == Seq::<(i32, Tile)>::empty(),
            pending.tile_rect == TileRect(0, 0, 0, 0),
            pending.visible_cached@ == Seq::<Tile>::empty(),
            pending.visible_uncached@ == Seq::<Tile>::empty(),
            pending.interest_cached@ == Seq::<Tile>::empty(),
            pending.interest_uncached@ == Seq::<Tile>::empty(),
    {
        PendingTiles {
            list: Vec::with_capacity(VIEWPORT_DEFAULT_CAPACITY),
            tile_order: Vec::with_capacity(VIEWPORT_DEFAULT_CAPACITY),
            tile_rect: TileRect::empty(),
            visible_cached: Vec::with_capacity(VIEWPORT_DEFAULT_CAPACITY),
            visible_uncached: Vec::with_capacity(VIEWPORT_DEFAULT_CAPACITY),
            interest_cached: Vec::with_capacity(VIEWPORT_DEFAULT_CAPACITY),
            interest_uncached: Vec::with_capacity(VIEWPORT_DEFAULT_CAPACITY),
        }
    }

    /// Takes up the tiles of `tile_viewbox` anew: with `only_visible`, as
    /// while the user drags, those in view, else those of interest too.
    pub fn update(&mut self, tile_viewbox: &TileViewbox, surfaces: &Surfaces, only_visible: bool)
        requires
            orderable(
                if only_visible {
                    tile_viewbox.visible_rect
                } else {
                    tile_viewbox.interest_rect
                },
            ),
        ensures
            final(self).arranges(
                if only_visible {
                    tile_viewbox.visible_rect
                } else {
                    tile_viewbox.interest_rect
                },
                tile_viewbox.visible_rect,
                surfaces.cached_tiles@,
            ),
            final(self).arranges(
                taken_up(*tile_viewbox, only_visible),
                tile_viewbox.visible_rect,
                surfaces.cached_tiles@,
            ),
    {
        let tile_rect: TileRect = if only_visible {
            tile_viewbox.visible_rect
        } else {
            tile_viewbox.interest_rect
        };
        self.tile_rect = tile_rect;
        self.measure(tile_rect);
        sort_farthest_first(&mut self.tile_order);
        self.partition(tile_viewbox.visible_rect, surfaces);
        self.list.clear();
        self.list.extend_from_slice(&self.interest_uncached);
        self.list.extend_from_slice(&self.interest_cached);
        self.list.extend_from_slice(&self.visible_uncached);
        self.list.extend_from_slice(&self.visible_cached);
        assert(self.list@ =~= self.interest_uncached@ + self.interest_cached@
            + self.visible_uncached@ + self.visible_cached@);
    }

    /// Fills `tile_order` with the tiles of `rect` in the order of a walk. One
    /// with a reversed side has none, whatever a walk over it visits.
    fn measure(&mut self, rect: TileRect)
        requires
            orderable(rect),
        ensures
            final(self).tile_order@ == measured(rect),
            final(self).tile_rect == old(self).tile_rect,
    {
        self.tile_order.clear();
        if rect.is_degenerate() {
            return;
        }
        let center_x: i32 = (rect.x1() + rect.x2()) / 2;
        let center_y: i32 = (rect.y1() + rect.y2()) / 2;
        let ghost walk = rect.walk(true);
        let mut tiles = rect.iter(true);
        assert(walk.skip(0) =~= walk);
        assert(self.tile_order@ =~= measured(rect).take(0));
        loop
            invariant
                rect.ordered(),
                countable(rect),
                self.tile_rect == old(self).tile_rect,
                walk == rect.walk(true),
                center_x == half(rect.0 + rect.2),
                center_y == half(rect.1 + rect.3),
                self.tile_order@.len() <= walk.len(),
                tiles@ == walk.skip(self.tile_order@.len() as int),
                self.tile_order@ == measured(rect).take(self.tile_order@.len() as int),
            ensures
                self.tile_rect == old(self).tile_rect,
                self.tile_order@ == measured(rect),
            decreases tiles@.len(),
        {
            let ghost i = self.tile_order@.len() as int;
            proof {
                if i < walk.len() {
                    assert(tiles@[0] == walk[i]);
                }
            }
            match tiles.next() {
                Some(tile) => {
                    let dx: i32 = tile.x() - center_x;
                    let dy: i32 = tile.y() - center_y;
                    self.tile_order.push((dx * dx + dy * dy, tile));
                    assert(walk.skip(i).skip(1) =~= walk.skip(i + 1));
                    assert(self.tile_order@ =~= measured(rect).take(i + 1));
                },
                None => {
                    assert(self.tile_order@ =~= measured(rect));
                    break;
                },
            }
        }
    }

    /// Splits `tile_order` into the four groups.
    fn partition(&mut self, visible: TileRect, surfaces: &Surfaces)
        ensures
            ({
                let order = old(self).tile_order@;
                let cached = surfaces.cached_tiles@;
                &&& final(self).tile_order == old(self).tile_order
                &&& final(self).tile_rect == old(self).tile_rect
                &&& final(self).visible_cached@ == group(order, visible, cached, true, true)
                &&& final(self).visible_uncached@ == group(order, visible, cached, true, false)
                &&& final(self).interest_cached@ == group(order, visible, cached, false, true)
                &&& final(self).interest_uncached@ == group(order, visible, cached, false, false)
            }),
    {
        self.visible_cached.clear();
        self.visible_uncached.clear();
        self.interest_cached.clear();
        self.interest_uncached.clear();
        let ghost order = self.tile_order@;
        let ghost cached = surfaces.cached_tiles@;
        let total: usize = self.tile_order.len();
        for i in 0..total
            invariant
                total == order.len(),
                order == self.tile_order@,
                self.tile_order == old(self).tile_order,
                self.tile_rect == old(self).tile_rect,
                cached == surfaces.cached_tiles@,
                self.visible_cached@ == group(order.take(i as int), visible, cached, true, true),
                self.visible_uncached@ == group(order.take(i as int), visible, cached, true, false),
                self.interest_cached@ == group(order.take(i as int), visible, cached, false, true),
                self.interest_uncached@ == group(
                    order.take(i as int),
                    visible,
                    cached,
                    false,
                    false,
                ),
        {
            let tile: Tile = self.tile_order[i].1;
            proof {
                lemma_group_grows(order, i as int, visible, cached, true, true);
                lemma_group_grows(order, i as int, visible, cached, true, false);
                lemma_group_grows(order, i as int, visible, cached, false, true);
                lemma_group_grows(order, i as int, visible, cached, false, false);
            }
            let is_visible: bool = visible.contains(&tile);
            let is_cached: bool = surfaces.has_cached_tile_surface(tile);
            match (is_visible, is_cached) {
                (true, true) => self.visible_cached.push(tile),
                (true, false) => self.visible_uncached.push(tile),
                (false, true) => self.interest_cached.push(tile),
                (false, false) => self.interest_uncached.push(tile),
            }
        }
        assert(order.take(order.len() as int) =~= order);
    }

    /// Takes the tile to be rendered next; `None` if none is left.
    pub fn pop(&mut self) -> (tile: Option<Tile>)
        ensures
            old(self).list@.len() > 0 ==> {
                &&& tile == Some(old(self).list@.last())
                &&& final(self).list@ == old(self).list@.drop_last()
            },
            old(self).list@.len() == 0 ==> tile is None && final(self).list@ == old(self).list@,
            final(self).tile_order == old(self).tile_order,
            final(self).tile_rect == old(self).tile_rect,
            final(self).visible_cached == old(self).visible_cached,
            final(self).visible_uncached == old(self).visible_uncached,
            final(self).interest_cached == old(self).interest_cached,
            final(self).interest_uncached == old(self).interest_uncached,
    {
        self.list.pop()
    }
}

/// One more tile of the order goes to its group.
pub(crate) proof fn lemma_group_grows(
    order: Seq<(i32, Tile)>,
    i: int,
    visible: TileRect,
    cached: Set<Tile>,
    is_visible: bool,
    is_cached: bool,
)
    requires
        0 <= i < order.len(),
    ensures
        group(order.take(i + 1), visible, cached, is_visible, is_cached) == (if in_group(
            visible,
            cached,
            is_visible,
            is_cached,
        )(order[i].1) {
            group(order.take(i), visible, cached, is_visible, is_cached).push(order[i].1)
        } else {
            group(order.take(i), visible, cached, is_visible, is_cached)
        }),
{
    let tiles = order.take(i).map_values(|entry: (i32, Tile)| entry.1);
    assert(order.take(i + 1).map_values(|entry: (i32, Tile)| entry.1) =~= tiles.push(order[i].1));
    tiles.lemma_filter_push(order[i].1, in_group(visible, cached, is_visible, is_cached));
}

} // verus!
