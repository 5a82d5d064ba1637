//! The tiles in view and around it.
use crate::tiles::geometry::{fits_i32, half, Tile, TileRect};
use vstd::prelude::*;

verus! {

/// The part of the document in view, by the tiles that its area reaches into
/// at its zoom.
#[derive(PartialEq, Eq, Structural, Clone, Copy, Debug)]
pub struct Viewbox {
    pub tiles: TileRect,
}

impl Viewbox {
    /// The tiles in view with a ring of `interest` tiles around them.
    pub open spec fn ring(self, interest: i32) -> TileRect {
        TileRect(
            (self.tiles.0 - interest) as i32,
            (self.tiles.1 - interest) as i32,
            (self.tiles.2 + interest) as i32,
            (self.tiles.3 + interest) as i32,
        )
    }

    /// The numbers of that ring are values of type `i32`.
    pub open spec fn ring_fits(self, interest: i32) -> bool {
        &&& fits_i32(self.tiles.0 - interest)
        &&& fits_i32(self.tiles.1 - interest)
        &&& fits_i32(self.tiles.2 + interest)
        &&& fits_i32(self.tiles.3 + interest)
    }

    /// The middle of the tiles in view, counted from the first of them and
    /// rounded towards it.
    pub open spec fn middle(self) -> Tile {
        Tile(
            half(self.tiles.2 - self.tiles.0) as i32,
            half(self.tiles.3 - self.tiles.1) as i32,
        )
    }

    /// The extents of the tiles in view are values of type `i32`.
    pub open spec fn extent_fits(self) -> bool {
        fits_i32(self.tiles.2 - self.tiles.0) && fits_i32(self.tiles.3 - self.tiles.1)
    }
}

/// The tiles in view.
pub fn get_tiles_for_viewbox(viewbox: &Viewbox) -> (rect: TileRect)
    ensures
        rect == viewbox.tiles,
{
    viewbox.tiles
}

/// The tiles in view with a ring of `interest` tiles around them.
pub fn get_tiles_for_viewbox_with_interest(viewbox: &Viewbox, interest: i32) -> (rect: TileRect)
    requires
        viewbox.ring_fits(interest),
    ensures
        rect == viewbox.ring(interest),
{
    let TileRect(sx, sy, ex, ey) = get_tiles_for_viewbox(viewbox);
    TileRect(sx - interest, sy - interest, ex + interest, ey + interest)
}

/// The middle of the tiles in view, counted from the first of them.
pub fn get_tile_center_for_viewbox(viewbox: &Viewbox) -> (tile: Tile)
    requires
        viewbox.extent_fits(),
    ensures
        tile == viewbox.middle(),
{
    let TileRect(sx, sy, ex, ey) = get_tiles_for_viewbox(viewbox);
    Tile((ex - sx) / 2, (ey - sy) / 2)
}

/// The tiles in view, those of interest around it, and how wide that ring is.
#[derive(Debug)]
pub struct TileViewbox {
    pub visible_rect: TileRect,
    pub interest_rect: TileRect,
    pub interest: i32,
    pub center: Tile,
}

impl TileViewbox {
    /// The rectangles and the center are those of `viewbox` with a ring
    /// of `interest` tiles.
    pub open spec fn shows(self, viewbox: Viewbox, interest: i32) -> bool {
        &&& self.visible_rect == viewbox.tiles
        &&& self.interest_rect == viewbox.ring(interest)
        &&& self.interest == interest
        &&& self.center == viewbox.middle()
    }

    pub fn new_with_interest(viewbox: &Viewbox, interest: i32) -> (tiles: Self)
        requires
            viewbox.ring_fits(interest),
            viewbox.extent_fits(),
        ensures
            tiles.shows(*viewbox, interest),
    {
        TileViewbox {
            visible_rect: get_tiles_for_viewbox(viewbox),
            interest_rect: get_tiles_for_viewbox_with_interest(viewbox, interest),
            interest,
            center: get_tile_center_for_viewbox(viewbox),
        }
    }

    /// Follows the view to `viewbox`; the width of the ring stays.
    pub fn update(&mut self, viewbox: &Viewbox)
        requires
            viewbox.ring_fits(old(self).interest),
            viewbox.extent_fits(),
        ensures
            final(self).shows(*viewbox, old(self).interest),
    {
        self.visible_rect = get_tiles_for_viewbox(viewbox);
        self.interest_rect = get_tiles_for_viewbox_with_interest(viewbox, self.interest);
        self.center = get_tile_center_for_viewbox(viewbox);
    }

    /// Sets how wide the ring is from the next update on.
    pub fn set_interest(&mut self, interest: i32)
        ensures
            *final(self) == (TileViewbox { interest, ..*old(self) }),
    {
        self.interest = interest;
    }

    /// `tile` is in view: the ring does not count.
    pub fn is_visible(&self, tile: &Tile) -> (visible: bool)
        ensures
            visible == self.visible_rect.has_tile(*tile),
    {
        self.visible_rect.contains(tile)
    }
}

/// Every tile in view is one of interest, and so is every tile at most
/// `interest` columns and rows away from one in view; no other tile is.
pub proof fn law_ring_surrounds_the_view(viewbox: Viewbox, interest: i32, x: int, y: int)
    requires
        viewbox.ring_fits(interest),
        viewbox.tiles.ordered(),
        interest >= 0,
    ensures
        viewbox.tiles.has(x, y) ==> viewbox.ring(interest).has(x, y),
        viewbox.ring(interest).has(x, y) <==> exists|u: int, v: int| #[trigger]
            viewbox.tiles.has(u, v) && -interest <= x - u <= interest && -interest <= y - v
                <= interest,
{
    let t = viewbox.tiles;
    if viewbox.ring(interest).has(x, y) {
        let u = if x < t.0 {
            t.0 as int
        } else if x > t.2 {
            t.2 as int
        } else {
            x
        };
        let v = if y < t.1 {
            t.1 as int
        } else if y > t.3 {
            t.3 as int
        } else {
            y
        };
        assert(t.has(u, v));
    }
}

} // verus!
