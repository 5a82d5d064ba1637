//! Laws of the order in which tiles are rendered.
use crate::tiles::geometry::{
    fits_i32, half, law_walk_visits_each_tile_once, Tile, TileRect,
};
use crate::tiles::pending::{
    distance, group, in_group, lemma_group_grows, measured, orderable, taken_up, PendingTiles,
};
use crate::tiles::viewbox::TileViewbox;
use vstd::multiset::Multiset;
use vstd::prelude::*;

verus! {

/// The tiles of an order, without their distances.
pub open spec fn tiles_of(order: Seq<(i32, Tile)>) -> Seq<Tile> {
    order.map_values(|entry: (i32, Tile)| entry.1)
}

/// How soon a tile is rendered: visible and cached ones (3) before visible
/// ones (2), these before cached ones (1), these before the others (0).
pub open spec fn priority(visible: TileRect, cached: Set<Tile>, tile: Tile) -> int {
    (if visible.has_tile(tile) {
        2int
    } else {
        0
    }) + (if cached.contains(tile) {
        1int
    } else {
        0
    })
}

/// Filtering a sequence filters its items.
proof fn lemma_filter_items(tiles: Seq<Tile>, pred: spec_fn(Tile) -> bool)
    ensures
        tiles.filter(pred).to_multiset() =~= tiles.to_multiset().filter(pred),
    decreases tiles.len(),
{
    broadcast use vstd::seq_lib::group_to_multiset_ensures;

    if tiles.len() == 0 {
        assert(tiles.filter(pred) =~= Seq::<Tile>::empty());
        assert(tiles =~= Seq::<Tile>::empty());
        assert(tiles.to_multiset() =~= Multiset::empty());
    } else {
        let rest = tiles.drop_last();
        let last = tiles.last();
        lemma_filter_items(rest, pred);
        assert(tiles =~= rest.push(last));
        rest.lemma_filter_push(last, pred);
        assert(tiles.to_multiset() =~= rest.to_multiset().insert(last));
        if pred(last) {
            assert(tiles.filter(pred).to_multiset() =~= rest.filter(pred).to_multiset().insert(
                last,
            ));
        }
    }
}

/// The four groups together are the tiles of the order.
proof fn lemma_groups_are_all(order: Seq<(i32, Tile)>, visible: TileRect, cached: Set<Tile>)
    ensures
        (group(order, visible, cached, false, false) + group(order, visible, cached, false, true)
            + group(order, visible, cached, true, false) + group(
            order,
            visible,
            cached,
            true,
            true,
        )).to_multiset() == tiles_of(order).to_multiset(),
{
    let a = group(order, visible, cached, false, false);
    let b = group(order, visible, cached, false, true);
    let c = group(order, visible, cached, true, false);
    let d = group(order, visible, cached, true, true);
    let tiles = tiles_of(order);
    lemma_filter_items(tiles, in_group(visible, cached, false, false));
    lemma_filter_items(tiles, in_group(visible, cached, false, true));
    lemma_filter_items(tiles, in_group(visible, cached, true, false));
    lemma_filter_items(tiles, in_group(visible, cached, true, true));
    vstd::seq_lib::lemma_multiset_commutative(a, b);
    vstd::seq_lib::lemma_multiset_commutative(a + b, c);
    vstd::seq_lib::lemma_multiset_commutative(a + b + c, d);
    assert((a + b + c + d).to_multiset() =~= tiles.to_multiset());
}

/// The list has the measured tiles of the rectangle.
pub proof fn law_list_is_the_rectangle(
    pending: PendingTiles,
    rect: TileRect,
    visible: TileRect,
    cached: Set<Tile>,
)
    requires
        pending.arranges(rect, visible, cached),
    ensures
        pending.list@.to_multiset() == tiles_of(measured(rect)).to_multiset(),
{
    lemma_groups_are_all(pending.tile_order@, visible, cached);
    lemma_map_items(pending.tile_order@, measured(rect));
}

/// Two orders of the same tiles with distances are orders of the same tiles.
proof fn lemma_map_items(a: Seq<(i32, Tile)>, b: Seq<(i32, Tile)>)
    requires
        a.to_multiset() == b.to_multiset(),
    ensures
        tiles_of(a).to_multiset() == tiles_of(b).to_multiset(),
    decreases a.len(),
{
    broadcast use vstd::seq_lib::group_to_multiset_ensures;

    assert(a.len() == a.to_multiset().len() == b.to_multiset().len() == b.len());
    if a.len() == 0 {
        assert(tiles_of(a) =~= tiles_of(b));
    } else {
        let x = a.last();
        assert(a.contains(x));
        assert(b.to_multiset().contains(x));
        assert(b.contains(x));
        let i = choose|i: int| 0 <= i < b.len() && b[i] == x;
        let rest_a = a.drop_last();
        let rest_b = b.remove(i);
        assert(a =~= rest_a.push(x));
        assert(rest_a.to_multiset() =~= a.to_multiset().remove(x));
        assert(rest_b.to_multiset() =~= b.to_multiset().remove(x));
        lemma_map_items(rest_a, rest_b);
        assert(tiles_of(a) =~= tiles_of(rest_a).push(x.1));
        assert(tiles_of(rest_b) =~= tiles_of(b).remove(i));
        assert(tiles_of(b).to_multiset() =~= tiles_of(rest_b).to_multiset().insert(x.1));
    }
}

/// Every tile of the rectangle is in the list exactly once, and no other tile
/// is: none at all where a side of the rectangle is reversed.
pub proof fn law_each_tile_is_listed_once(
    pending: PendingTiles,
    rect: TileRect,
    visible: TileRect,
    cached: Set<Tile>,
)
    requires
        pending.arranges(rect, visible, cached),
    ensures
        pending.list@.no_duplicates(),
        pending.list@.len() == (if rect.ordered() {
            rect.span_x(true) * rect.span_y(true)
        } else {
            0
        }),
        forall|tile: Tile| #[trigger] pending.list@.contains(tile) <==> rect.has_tile(tile),
{
    broadcast use vstd::seq_lib::group_to_multiset_ensures;

    law_list_is_the_rectangle(pending, rect, visible, cached);
    let tiles = tiles_of(measured(rect));
    let list = pending.list@;
    assert(list.to_multiset().len() == tiles.to_multiset().len());
    if rect.ordered() {
        lemma_tiles_are_the_rectangle(rect);
    }
    tiles.lemma_multiset_has_no_duplicates();
    list.lemma_multiset_has_no_duplicates_conv();
    assert forall|tile: Tile| #[trigger] list.contains(tile) <==> rect.has_tile(tile) by {
        assert(list.contains(tile) <==> list.to_multiset().contains(tile));
        assert(tiles.contains(tile) <==> tiles.to_multiset().contains(tile));
    }
}

/// The measured tiles of a rectangle whose sides are not reversed are its
/// tiles, each once.
proof fn lemma_tiles_are_the_rectangle(rect: TileRect)
    requires
        rect.ordered(),
    ensures
        tiles_of(measured(rect)).no_duplicates(),
        tiles_of(measured(rect)).len() == rect.span_x(true) * rect.span_y(true),
        forall|tile: Tile| #[trigger]
            tiles_of(measured(rect)).contains(tile) <==> rect.has_tile(tile),
{
    law_walk_visits_each_tile_once(rect, true);
    let walk = rect.walk(true);
    let tiles = tiles_of(measured(rect));
    assert forall|i: int| 0 <= i < walk.len() implies {
        &&& rect.has((#[trigger] walk[i]).0, walk[i].1)
        &&& tiles[i] == Tile(walk[i].0 as i32, walk[i].1 as i32)
    } by {
        assert(walk.contains((walk[i].0, walk[i].1)));
    }
    assert(tiles.no_duplicates()) by {
        assert forall|i: int, j: int|
            0 <= i < tiles.len() && 0 <= j < tiles.len() && i != j implies tiles[i]
            != tiles[j] by {
            assert(walk[i] != walk[j]);
        }
    }
    assert forall|tile: Tile| #[trigger] tiles.contains(tile) <==> rect.has_tile(tile) by {
        if tiles.contains(tile) {
            let i = choose|i: int| 0 <= i < tiles.len() && tiles[i] == tile;
            assert(rect.has(walk[i].0, walk[i].1));
        }
        if rect.has_tile(tile) {
            assert(walk.contains((tile.0 as int, tile.1 as int)));
            let i = choose|i: int|
                0 <= i < walk.len() && walk[i] == (tile.0 as int, tile.1 as int);
            assert(rect.has(walk[i].0, walk[i].1));
            assert(tiles[i] == tile);
        }
    }
}

/// Every entry of an order has the distance of its tile.
proof fn lemma_distances(rect: TileRect, order: Seq<(i32, Tile)>)
    requires
        orderable(rect),
        order.to_multiset() == measured(rect).to_multiset(),
    ensures
        forall|i: int|
            0 <= i < order.len() ==> (#[trigger] order[i]).0 == distance(
                rect,
                order[i].1.0 as int,
                order[i].1.1 as int,
            ),
{
    broadcast use vstd::seq_lib::group_to_multiset_ensures;

    let walk = rect.walk(true);
    let all = measured(rect);
    assert forall|i: int| 0 <= i < order.len() implies (#[trigger] order[i]).0 == distance(
        rect,
        order[i].1.0 as int,
        order[i].1.1 as int,
    ) by {
        assert(order.contains(order[i]));
        assert(all.to_multiset().contains(order[i]));
        assert(all.contains(order[i]));
        let j = choose|j: int| 0 <= j < all.len() && all[j] == order[i];
        let (x, y) = walk[j];
        assert(fits_i32(x) && fits_i32(y));
    }
}

/// A group keeps the order.
proof fn lemma_group_is_ordered(
    rect: TileRect,
    order: Seq<(i32, Tile)>,
    n: int,
    visible: TileRect,
    cached: Set<Tile>,
    is_visible: bool,
    is_cached: bool,
)
    requires
        0 <= n <= order.len(),
        forall|i: int|
            0 <= i < order.len() ==> (#[trigger] order[i]).0 == distance(
                rect,
                order[i].1.0 as int,
                order[i].1.1 as int,
            ),
        forall|i: int, j: int| 0 <= i <= j < order.len() ==> order[i].0 >= order[j].0,
    ensures
        ({
            let g = group(order.take(n), visible, cached, is_visible, is_cached);
            &&& forall|a: int|
                0 <= a < g.len() ==> in_group(visible, cached, is_visible, is_cached)(
                    #[trigger] g[a],
                ) && (exists|k: int| 0 <= k < n && (#[trigger] order[k]).1 == g[a])
            &&& forall|a: int, b: int|
                0 <= a <= b < g.len() ==> distance(
                    rect,
                    (#[trigger] g[a]).0 as int,
                    g[a].1 as int,
                ) >= distance(rect, (#[trigger] g[b]).0 as int, g[b].1 as int)
        }),
    decreases n,
{
    let g = group(order.take(n), visible, cached, is_visible, is_cached);
    if n > 0 {
        lemma_group_is_ordered(rect, order, n - 1, visible, cached, is_visible, is_cached);
        lemma_group_grows(order, n - 1, visible, cached, is_visible, is_cached);
        let h = group(order.take(n - 1), visible, cached, is_visible, is_cached);
        assert forall|a: int| 0 <= a < g.len() implies in_group(
            visible,
            cached,
            is_visible,
            is_cached,
        )(#[trigger] g[a]) && (exists|k: int| 0 <= k < n && (#[trigger] order[k]).1 == g[a]) by {
            if a < h.len() {
                assert(g[a] == h[a]);
                let k = choose|k: int| 0 <= k < n - 1 && (#[trigger] order[k]).1 == h[a];
                assert(order[k].1 == g[a]);
            } else {
                assert(order[n - 1].1 == g[a]);
            }
        }
        assert forall|a: int, b: int| 0 <= a <= b < g.len() implies distance(
            rect,
            (#[trigger] g[a]).0 as int,
            g[a].1 as int,
        ) >= distance(rect, (#[trigger] g[b]).0 as int, g[b].1 as int) by {
            if b < h.len() {
                assert(g[a] == h[a] && g[b] == h[b]);
            } else if a < h.len() {
                assert(g[a] == h[a]);
                let k = choose|k: int| 0 <= k < n - 1 && (#[trigger] order[k]).1 == h[a];
                assert(order[k].0 >= order[n - 1].0);
            }
        }
    } else {
        assert(order.take(0) =~= Seq::<(i32, Tile)>::empty());
        assert(g =~= Seq::<Tile>::empty());
    }
}

/// Tiles leave the list, from its end, by priority, and among those of one
/// priority the ones close to the middle of the rectangle first.
pub proof fn law_tiles_are_rendered_by_priority(
    pending: PendingTiles,
    rect: TileRect,
    visible: TileRect,
    cached: Set<Tile>,
)
    requires
        orderable(rect),
        pending.arranges(rect, visible, cached),
    ensures
        forall|i: int, j: int|
            #![trigger pending.list@[i], pending.list@[j]]
            0 <= i < j < pending.list@.len() ==> {
                let later = pending.list@[i];
                let sooner = pending.list@[j];
                let p = priority(visible, cached, later);
                let q = priority(visible, cached, sooner);
                p < q || (p == q && distance(rect, later.0 as int, later.1 as int) >= distance(
                    rect,
                    sooner.0 as int,
                    sooner.1 as int,
                ))
            },
{
    let order = pending.tile_order@;
    let n = order.len() as int;
    lemma_distances(rect, order);
    lemma_group_is_ordered(rect, order, n, visible, cached, false, false);
    lemma_group_is_ordered(rect, order, n, visible, cached, false, true);
    lemma_group_is_ordered(rect, order, n, visible, cached, true, false);
    lemma_group_is_ordered(rect, order, n, visible, cached, true, true);
    assert(order.take(n) =~= order);
    let list = pending.list@;
    let a = pending.interest_uncached@;
    let b = pending.interest_cached@;
    let c = pending.visible_uncached@;
    let d = pending.visible_cached@;
    assert forall|i: int| 0 <= i < list.len() implies {
        ||| i < a.len() && #[trigger] list[i] == a[i]
        ||| a.len() <= i < a.len() + b.len() && list[i] == b[i - a.len()]
        ||| a.len() + b.len() <= i < a.len() + b.len() + c.len() && list[i] == c[i - a.len()
            - b.len()]
        ||| a.len() + b.len() + c.len() <= i && list[i] == d[i - a.len() - b.len() - c.len()]
    } by {
    }
}

/// Where only what is in view is taken up, nothing outside it is rendered.
pub proof fn law_only_visible_tiles_while_dragging(
    pending: PendingTiles,
    visible: TileRect,
    cached: Set<Tile>,
)
    requires
        pending.arranges(visible, visible, cached),
    ensures
        pending.interest_cached@.len() == 0,
        pending.interest_uncached@.len() == 0,
        pending.list@ == pending.visible_uncached@ + pending.visible_cached@,
{
    law_each_tile_is_listed_once(pending, visible, visible, cached);
    let a = pending.interest_uncached@;
    let b = pending.interest_cached@;
    let tiles = tiles_of(pending.tile_order@);
    if a.len() > 0 {
        assert(pending.list@[0] == a[0]);
        assert(pending.list@.contains(a[0]));
        tiles.lemma_filter_pred(in_group(visible, cached, false, false), 0);
    }
    if b.len() > 0 {
        assert(pending.list@[a.len() as int] == b[0]);
        assert(pending.list@.contains(b[0]));
        tiles.lemma_filter_pred(in_group(visible, cached, false, true), 0);
    }
    assert(pending.list@ =~= pending.visible_uncached@ + pending.visible_cached@);
}

/// The tiles of every rectangle of at most 32768 columns and rows can be
/// ordered, unless it lies more than 2^29 columns or rows away.
pub proof fn law_ordinary_rectangles_can_be_ordered(rect: TileRect)
    requires
        rect.ordered(),
        rect.span_x(true) <= 32768,
        rect.span_y(true) <= 32768,
        -0x2000_0000 <= rect.0 && rect.2 <= 0x2000_0000,
        -0x2000_0000 <= rect.1 && rect.3 <= 0x2000_0000,
    ensures
        orderable(rect),
{
    law_walk_visits_each_tile_once(rect, true);
    let walk = rect.walk(true);
    let w = rect.span_x(true);
    let h = rect.span_y(true);
    assert(0 <= w * h <= 32768 * 32768) by (nonlinear_arith)
        requires
            0 <= w <= 32768,
            0 <= h <= 32768,
    ;
    assert forall|i: int| 0 <= i < walk.len() implies {
        let (x, y) = #[trigger] walk[i];
        let dx = x - half(rect.0 + rect.2);
        let dy = y - half(rect.1 + rect.3);
        &&& fits_i32(x)
        &&& fits_i32(y)
        &&& fits_i32(dx)
        &&& fits_i32(dy)
        &&& fits_i32(dx * dx)
        &&& fits_i32(dy * dy)
        &&& fits_i32(dx * dx + dy * dy)
    } by {
        let (x, y) = walk[i];
        assert(walk.contains((x, y)));
        let dx = x - half(rect.0 + rect.2);
        let dy = y - half(rect.1 + rect.3);
        assert(0 <= dx * dx <= 16384 * 16384 && 0 <= dy * dy <= 16384 * 16384)
            by (nonlinear_arith)
            requires
                -16384 <= dx <= 16384,
                -16384 <= dy <= 16384,
        ;
    }
}

/// While the user drags, exactly the tiles in view wait; else all those of
/// interest do.
pub proof fn law_ring_waits_unless_dragging(
    pending: PendingTiles,
    tiles: TileViewbox,
    only_visible: bool,
    cached: Set<Tile>,
    tile: Tile,
)
    requires
        pending.arranges(taken_up(tiles, only_visible), tiles.visible_rect, cached),
    ensures
        only_visible ==> (pending.list@.contains(tile) <==> {
            &&& tiles.visible_rect.0 <= tile.0 <= tiles.visible_rect.2
            &&& tiles.visible_rect.1 <= tile.1 <= tiles.visible_rect.3
        }),
        !only_visible ==> (pending.list@.contains(tile) <==> {
            &&& tiles.interest_rect.0 <= tile.0 <= tiles.interest_rect.2
            &&& tiles.interest_rect.1 <= tile.1 <= tiles.interest_rect.3
        }),
{
    law_each_tile_is_listed_once(
        pending,
        taken_up(tiles, only_visible),
        tiles.visible_rect,
        cached,
    );
}

/// Every tile that waits is measured by the square of its distance from the
/// middle of the rectangle, with columns and rows alike, and stands in the
/// order once, none before one that is farther away.
pub proof fn law_tiles_are_measured_from_the_middle(
    pending: PendingTiles,
    rect: TileRect,
    visible: TileRect,
    cached: Set<Tile>,
    cx: int,
    cy: int,
)
    requires
        orderable(rect),
        pending.arranges(rect, visible, cached),
        is_middle(rect.0 + rect.2, cx),
        is_middle(rect.1 + rect.3, cy),
    ensures
        pending.tile_rect == rect,
        forall|i: int|
            #![trigger pending.tile_order@[i]]
            0 <= i < pending.tile_order@.len() ==> {
                let (d, tile) = pending.tile_order@[i];
                d == (tile.0 - cx) * (tile.0 - cx) + (tile.1 - cy) * (tile.1 - cy)
            },
        forall|i: int, j: int|
            #![trigger pending.tile_order@[i], pending.tile_order@[j]]
            0 <= i <= j < pending.tile_order@.len() ==> pending.tile_order@[i].0
                >= pending.tile_order@[j].0,
        tiles_of(pending.tile_order@).to_multiset() == pending.list@.to_multiset(),
{
    lemma_distances(rect, pending.tile_order@);
    lemma_groups_are_all(pending.tile_order@, visible, cached);
}

/// `c` is half of `sum`, rounded towards zero.
pub open spec fn is_middle(sum: int, c: int) -> bool {
    if sum >= 0 {
        2 * c <= sum <= 2 * c + 1
    } else {
        2 * c - 1 <= sum <= 2 * c
    }
}

/// Of two tiles that wait, one in view is rendered before one that is not;
/// where that does not decide, a cached one before one that is not; and where
/// that does not either, the one closer to the middle of the rectangle, by the
/// square of its distance.
pub proof fn law_closest_tiles_are_rendered_first(
    pending: PendingTiles,
    rect: TileRect,
    visible: TileRect,
    cached: Set<Tile>,
    cx: int,
    cy: int,
    i: int,
    j: int,
)
    requires
        orderable(rect),
        pending.arranges(rect, visible, cached),
        is_middle(rect.0 + rect.2, cx),
        is_middle(rect.1 + rect.3, cy),
        0 <= i < j < pending.list@.len(),
    ensures
        ({
            let later = pending.list@[i];
            let sooner = pending.list@[j];
            let later_shows = visible.0 <= later.0 <= visible.2 && visible.1 <= later.1
                <= visible.3;
            let sooner_shows = visible.0 <= sooner.0 <= visible.2 && visible.1 <= sooner.1
                <= visible.3;
            let (later_cached, sooner_cached) = (cached.contains(later), cached.contains(sooner));
            &&& later_shows ==> sooner_shows
            &&& later_shows == sooner_shows && later_cached ==> sooner_cached
            &&& later_shows == sooner_shows && later_cached == sooner_cached ==> (later.0 - cx) * (
            later.0 - cx) + (later.1 - cy) * (later.1 - cy) >= (sooner.0 - cx) * (sooner.0 - cx) + (
            sooner.1 - cy) * (sooner.1 - cy)
        }),
{
    law_tiles_are_rendered_by_priority(pending, rect, visible, cached);
    let later = pending.list@[i];
    let sooner = pending.list@[j];
    assert(visible.has_tile(later) == (visible.0 <= later.0 <= visible.2 && visible.1 <= later.1
        <= visible.3));
    assert(visible.has_tile(sooner) == (visible.0 <= sooner.0 <= visible.2 && visible.1 <= sooner.1
        <= visible.3));
    assert(cx == half(rect.0 + rect.2) && cy == half(rect.1 + rect.3));
    assert(distance(rect, later.0 as int, later.1 as int) == (later.0 - cx) * (later.0 - cx) + (
    later.1 - cy) * (later.1 - cy));
    assert(distance(rect, sooner.0 as int, sooner.1 as int) == (sooner.0 - cx) * (sooner.0 - cx) + (
    sooner.1 - cy) * (sooner.1 - cy));
}

/// Exactly the tiles between the first and the last column and row of the
/// rectangle wait, each once, in the group that says whether it is in view and
/// whether it is cached; the groups follow one another in the list.
pub proof fn law_groups_split_the_rectangle(
    pending: PendingTiles,
    rect: TileRect,
    visible: TileRect,
    cached: Set<Tile>,
    tile: Tile,
)
    requires
        pending.arranges(rect, visible, cached),
    ensures
        ({
            let there = rect.0 <= tile.0 <= rect.2 && rect.1 <= tile.1 <= rect.3;
            let shows = visible.0 <= tile.0 <= visible.2 && visible.1 <= tile.1 <= visible.3;
            let is_cached = cached.contains(tile);
            &&& pending.list@.no_duplicates()
            &&& pending.list@.contains(tile) <==> there
            &&& pending.visible_cached@.contains(tile) <==> there && shows && is_cached
            &&& pending.visible_uncached@.contains(tile) <==> there && shows && !is_cached
            &&& pending.interest_cached@.contains(tile) <==> there && !shows && is_cached
            &&& pending.interest_uncached@.contains(tile) <==> there && !shows && !is_cached
            &&& pending.list@ == pending.interest_uncached@ + pending.interest_cached@
                + pending.visible_uncached@ + pending.visible_cached@
        }),
{
    law_each_tile_is_listed_once(pending, rect, visible, cached);
    let order = pending.tile_order@;
    let tiles = tiles_of(order);
    lemma_groups_are_all(order, visible, cached);
    assert(tiles.contains(tile) <==> pending.list@.contains(tile)) by {
        broadcast use vstd::seq_lib::group_to_multiset_ensures;

        assert(tiles.contains(tile) <==> tiles.to_multiset().contains(tile));
        assert(pending.list@.contains(tile) <==> pending.list@.to_multiset().contains(tile));
    }
    lemma_group_members(order, visible, cached, true, true, tile);
    lemma_group_members(order, visible, cached, true, false, tile);
    lemma_group_members(order, visible, cached, false, true, tile);
    lemma_group_members(order, visible, cached, false, false, tile);
}

/// A group has those tiles of an order that belong to it.
proof fn lemma_group_members(
    order: Seq<(i32, Tile)>,
    visible: TileRect,
    cached: Set<Tile>,
    is_visible: bool,
    is_cached: bool,
    tile: Tile,
)
    ensures
        group(order, visible, cached, is_visible, is_cached).contains(tile) <==> tiles_of(
            order,
        ).contains(tile) && visible.has_tile(tile) == is_visible && cached.contains(tile)
            == is_cached,
{
    broadcast use vstd::seq_lib::group_to_multiset_ensures;

    let tiles = tiles_of(order);
    let pred = in_group(visible, cached, is_visible, is_cached);
    lemma_filter_items(tiles, pred);
    let g = tiles.filter(pred);
    assert(g.contains(tile) <==> g.to_multiset().contains(tile));
    assert(tiles.contains(tile) <==> tiles.to_multiset().contains(tile));
    assert(tiles.to_multiset().filter(pred).count(tile) == if pred(tile) {
        tiles.to_multiset().count(tile)
    } else {
        0
    });
}

} // verus!
