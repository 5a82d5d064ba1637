use render_wasm::tiles::geometry::{Tile, TileRect, TileRectIter};
use render_wasm::tiles::pending::PendingTiles;
use render_wasm::tiles::sizes::{
    atlas_slot_size, get_tile_dimensions, paint_tile_size, screen_tile_size_i32,
    ATLAS_MIN_SLOTS_SIDE, TILE_PAINT_SIZE_CAP,
};
use render_wasm::tiles::surfaces::Surfaces;
use render_wasm::tiles::tile_hash_map::TileHashMap;
use render_wasm::tiles::tile_set::TileSet;
use render_wasm::tiles::viewbox::{
    get_tile_center_for_viewbox, get_tiles_for_viewbox, get_tiles_for_viewbox_with_interest,
    TileViewbox, Viewbox,
};

/// The edge of a tile at full resolution, in whole pixels.
fn ideal(dpr: f32) -> i32 {
    (512.0 * dpr).round() as i32
}

fn collect(mut walk: TileRectIter) -> Vec<Tile> {
    let mut tiles = Vec::new();
    while let Some(tile) = walk.next() {
        tiles.push(tile);
    }
    tiles
}

fn surfaces(cached: &[Tile]) -> Surfaces {
    let mut cached_tiles = TileSet::new();
    for tile in cached {
        cached_tiles.insert(*tile);
    }
    Surfaces { cached_tiles }
}

fn pop_all(pending: &mut PendingTiles) -> Vec<Tile> {
    let mut tiles = Vec::new();
    while let Some(tile) = pending.pop() {
        tiles.push(tile);
    }
    tiles
}

#[test]
fn paint_tile_size_matches_ideal_until_cap() {
    assert_eq!(paint_tile_size(ideal(1.0)), 512);
    assert_eq!(paint_tile_size(ideal(2.0)), 1024);
    assert_eq!(paint_tile_size(ideal(2.0)), TILE_PAINT_SIZE_CAP);
}

#[test]
fn paint_tile_size_caps_high_dpr() {
    assert_eq!(paint_tile_size(ideal(3.0)), TILE_PAINT_SIZE_CAP);
    assert_eq!(paint_tile_size(ideal(4.0)), TILE_PAINT_SIZE_CAP);
    assert_eq!(paint_tile_size(ideal(4.0)), 1024);
}

#[test]
fn paint_tile_size_is_at_least_one_pixel() {
    assert_eq!(paint_tile_size(0), 1);
    assert_eq!(paint_tile_size(-7), 1);
    assert_eq!(get_tile_dimensions(0).width, 1);
    assert_eq!(get_tile_dimensions(700).height, 700);
    assert_eq!(get_tile_dimensions(2048).width, 1024);
}

#[test]
fn screen_edge_has_no_cap() {
    assert_eq!(screen_tile_size_i32(2048), 2048);
    assert_eq!(screen_tile_size_i32(0), 1);
}

#[test]
fn atlas_slot_preserves_paint_when_atlas_is_large_enough() {
    // 8192 / 8 = 1024: paint 1024 fits at full resolution with 64 slots.
    assert_eq!(atlas_slot_size(1024, 8192), 1024);
    assert_eq!(atlas_slot_size(1024, 4096), 512);
    assert_eq!(atlas_slot_size(512, 4096), 512);
}

#[test]
fn atlas_has_at_least_the_least_number_of_slots() {
    for atlas in [8, 9, 100, 1000, 4096] {
        for paint in [-3, 0, 1, 13, 700, 5000] {
            let slot = atlas_slot_size(paint, atlas);
            assert!(slot >= 1);
            assert!(atlas / slot >= ATLAS_MIN_SLOTS_SIDE);
        }
    }
    assert_eq!(atlas_slot_size(1024, 0), 1);
    assert_eq!(atlas_slot_size(-5, -5), 1);
    // Too small an atlas for that many slots of one pixel.
    assert_eq!(atlas_slot_size(4, 7), 1);
}

#[test]
fn tile_has_column_and_row() {
    let tile = Tile::from(-3, 8);
    assert_eq!(tile, Tile(-3, 8));
    assert_eq!(tile.x(), -3);
    assert_eq!(tile.y(), 8);
}

#[test]
fn rectangle_counts_include_the_last_column_and_row() {
    let rect = TileRect(-1, 2, 3, 4);
    assert_eq!((rect.x1(), rect.y1(), rect.x2(), rect.y2()), (-1, 2, 3, 4));
    assert_eq!((rect.left(), rect.top(), rect.right(), rect.bottom()), (-1, 2, 3, 4));
    assert_eq!((rect.width(), rect.height()), (4, 2));
    assert_eq!((rect.columns(), rect.rows()), (5, 3));
    assert_eq!(rect.len(), 15);
    assert!(rect.contains(&Tile(-1, 2)));
    assert!(rect.contains(&Tile(3, 4)));
    assert!(!rect.contains(&Tile(4, 4)));
    assert!(!rect.contains(&Tile(3, 1)));
    assert_eq!(TileRect::empty(), TileRect(0, 0, 0, 0));
    assert_eq!(TileRect::empty().len(), 1);
}

#[test]
fn rectangle_with_a_reversed_side_is_degenerate() {
    assert!(!TileRect(0, 0, 0, 0).is_degenerate());
    assert!(TileRect(1, 0, 0, 0).is_degenerate());
    assert!(TileRect(0, 1, 0, 0).is_degenerate());
}

#[test]
fn walk_goes_row_by_row() {
    let rect = TileRect(-1, 5, 1, 6);
    let inclusive =
        vec![Tile(-1, 5), Tile(0, 5), Tile(1, 5), Tile(-1, 6), Tile(0, 6), Tile(1, 6)];
    assert_eq!(collect(rect.iter(true)), inclusive);
    assert_eq!(collect(rect.iter(false)), vec![Tile(-1, 5), Tile(0, 5)]);
}

#[test]
fn walk_visits_each_tile_once() {
    let rect = TileRect(-7, 3, 4, 9);
    let tiles = collect(rect.iter(true));
    assert_eq!(tiles.len() as i32, rect.len());
    let mut seen = TileSet::new();
    for tile in &tiles {
        assert!(rect.contains(tile));
        assert!(seen.insert(*tile));
    }
    assert_eq!(seen.to_vec().len(), tiles.len());
}

#[test]
fn walk_over_reversed_sides() {
    assert_eq!(collect(TileRect(5, 0, 3, 0).iter(true)), vec![]);
    assert_eq!(collect(TileRect(5, 0, 4, 3).iter(true)), vec![]);
    // Both reversed: two columns times two rows, from the first corner.
    assert_eq!(
        collect(TileRect(5, 9, 2, 6).iter(true)),
        vec![Tile(5, 9), Tile(6, 9), Tile(5, 8), Tile(6, 8)]
    );
    assert_eq!(collect(TileRect(0, 0, 0, 0).iter(false)), vec![]);
}

#[test]
fn walk_ends_for_good() {
    let mut walk = TileRect(0, 0, 0, 0).iter(true);
    assert_eq!(walk.next(), Some(Tile(0, 0)));
    assert_eq!(walk.next(), None);
    assert_eq!(walk.next(), None);
}

#[test]
fn tile_set_tells_tiles_apart() {
    let mut set = TileSet::new();
    assert!(set.insert(Tile(-1, 0)));
    assert!(set.insert(Tile(0, -1)));
    assert!(set.insert(Tile(i32::MIN, i32::MAX)));
    assert!(!set.insert(Tile(-1, 0)));
    assert!(set.contains(&Tile(i32::MIN, i32::MAX)));
    assert!(!set.contains(&Tile(-1, -1)));
    let mut tiles = set.to_vec();
    tiles.sort_by_key(|tile| (tile.0, tile.1));
    assert_eq!(tiles, vec![Tile(i32::MIN, i32::MAX), Tile(-1, 0), Tile(0, -1)]);
    assert!(set.remove(&Tile(0, -1)));
    assert!(!set.remove(&Tile(0, -1)));
    assert!(!set.contains(&Tile(0, -1)));
}

#[test]
fn viewbox_gives_tiles_ring_and_center() {
    let viewbox = Viewbox { tiles: TileRect(-2, 1, 3, 4) };
    assert_eq!(get_tiles_for_viewbox(&viewbox), TileRect(-2, 1, 3, 4));
    assert_eq!(get_tiles_for_viewbox_with_interest(&viewbox, 2), TileRect(-4, -1, 5, 6));
    assert_eq!(get_tile_center_for_viewbox(&viewbox), Tile(2, 1));
    // Rounded towards zero.
    let reversed = Viewbox { tiles: TileRect(3, 0, 0, 0) };
    assert_eq!(get_tile_center_for_viewbox(&reversed), Tile(-1, 0));
}

#[test]
fn tile_viewbox_follows_the_view() {
    let mut tiles = TileViewbox::new_with_interest(&Viewbox { tiles: TileRect(0, 0, 3, 1) }, 1);
    assert_eq!(tiles.visible_rect, TileRect(0, 0, 3, 1));
    assert_eq!(tiles.interest_rect, TileRect(-1, -1, 4, 2));
    assert_eq!(tiles.interest, 1);
    assert_eq!(tiles.center, Tile(1, 0));
    assert!(tiles.is_visible(&Tile(3, 1)));
    assert!(!tiles.is_visible(&Tile(-1, 0)));

    tiles.set_interest(3);
    assert_eq!(tiles.interest_rect, TileRect(-1, -1, 4, 2));
    tiles.update(&Viewbox { tiles: TileRect(10, 10, 12, 14) });
    assert_eq!(tiles.visible_rect, TileRect(10, 10, 12, 14));
    assert_eq!(tiles.interest_rect, TileRect(7, 7, 15, 17));
    assert_eq!(tiles.interest, 3);
    assert_eq!(tiles.center, Tile(1, 2));
}

#[test]
fn ring_surrounds_the_view() {
    let viewbox = Viewbox { tiles: TileRect(0, 0, 2, 2) };
    let ring = get_tiles_for_viewbox_with_interest(&viewbox, 1);
    for tile in collect(viewbox.tiles.iter(true)) {
        assert!(ring.contains(&tile));
    }
    assert!(ring.contains(&Tile(-1, 3)));
    assert!(!ring.contains(&Tile(-2, 0)));
}

#[test]
fn shapes_are_found_by_tile_and_tiles_by_shape() {
    let mut map = TileHashMap::new();
    assert!(map.is_empty_at(Tile(0, 0)));
    assert!(map.get_shapes_at(Tile(0, 0)).is_none());
    assert!(map.get_tiles_of(7).is_none());

    map.add_shape_at(Tile(0, 0), 7);
    map.add_shape_at(Tile(-1, 0), 7);
    map.add_shape_at(Tile(0, 0), 9);
    assert!(!map.is_empty_at(Tile(0, 0)));
    let shapes = map.get_shapes_at(Tile(0, 0)).unwrap();
    assert_eq!(shapes.len(), 2);
    assert!(shapes.contains(&7) && shapes.contains(&9));
    let tiles = map.get_tiles_of(7).unwrap();
    assert!(tiles.contains(&Tile(0, 0)) && tiles.contains(&Tile(-1, 0)));
    assert_eq!(tiles.to_vec().len(), 2);
}

#[test]
fn removing_a_shape_undoes_adding_it() {
    let mut map = TileHashMap::new();
    map.add_shape_at(Tile(1, 1), 7);
    map.add_shape_at(Tile(1, 1), 8);
    map.add_shape_at(Tile(2, 2), 8);
    map.remove_shape_at(Tile(1, 1), 8);
    assert!(!map.get_shapes_at(Tile(1, 1)).unwrap().contains(&8));
    assert!(map.get_shapes_at(Tile(1, 1)).unwrap().contains(&7));
    assert!(!map.get_tiles_of(8).unwrap().contains(&Tile(1, 1)));
    assert!(map.get_tiles_of(8).unwrap().contains(&Tile(2, 2)));

    // A tile stays known when its last shape leaves.
    map.remove_shape_at(Tile(1, 1), 7);
    assert!(map.is_empty_at(Tile(1, 1)));
    assert_eq!(map.get_shapes_at(Tile(1, 1)).unwrap().len(), 0);
    assert_eq!(map.get_tiles_of(7).unwrap().to_vec(), vec![]);

    // Removing what is not there changes nothing.
    map.remove_shape_at(Tile(5, 5), 8);
    assert!(map.get_shapes_at(Tile(5, 5)).is_none());
    assert!(map.get_tiles_of(8).unwrap().contains(&Tile(2, 2)));
}

#[test]
fn invalidating_forgets_everything() {
    let mut map = TileHashMap::new();
    map.add_shape_at(Tile(1, 1), 7);
    map.invalidate();
    assert!(map.is_empty_at(Tile(1, 1)));
    assert!(map.get_shapes_at(Tile(1, 1)).is_none());
    assert!(map.get_tiles_of(7).is_none());
}

#[test]
fn new_pending_tiles_are_none() {
    let mut pending = PendingTiles::new();
    assert_eq!(pending.tile_rect, TileRect(0, 0, 0, 0));
    assert_eq!(pending.pop(), None);
}

#[test]
fn tiles_are_rendered_by_priority_then_from_the_middle() {
    let viewbox = TileViewbox::new_with_interest(&Viewbox { tiles: TileRect(0, 0, 2, 0) }, 1);
    let cached = [Tile(0, 0), Tile(3, 0)];
    let mut pending = PendingTiles::new();
    pending.update(&viewbox, &surfaces(&cached), false);

    // Middle of (-1, -1, 3, 1) is (1, 0).
    assert_eq!(pending.tile_rect, TileRect(-1, -1, 3, 1));
    assert_eq!(pending.tile_order.len(), 15);
    assert_eq!(pending.tile_order[0].0, 5);
    assert_eq!(pending.tile_order[14], (0, Tile(1, 0)));
    assert!(pending.tile_order.windows(2).all(|pair| pair[0].0 >= pair[1].0));
    assert_eq!(pending.visible_cached, vec![Tile(0, 0)]);
    assert_eq!(pending.visible_uncached, vec![Tile(2, 0), Tile(1, 0)]);
    assert_eq!(pending.interest_cached, vec![Tile(3, 0)]);
    assert_eq!(pending.interest_uncached.len(), 11);

    let order = pop_all(&mut pending);
    assert_eq!(order[..4], [Tile(0, 0), Tile(1, 0), Tile(2, 0), Tile(3, 0)]);
    assert_eq!(order.len(), 15);
    let distances: Vec<i32> =
        order[4..].iter().map(|t| (t.0 - 1) * (t.0 - 1) + t.1 * t.1).collect();
    assert_eq!(distances, vec![1, 1, 2, 2, 2, 2, 4, 5, 5, 5, 5]);
}

#[test]
fn each_tile_is_pending_once() {
    let viewbox = TileViewbox::new_with_interest(&Viewbox { tiles: TileRect(-9, 4, -2, 11) }, 2);
    let mut pending = PendingTiles::new();
    pending.update(&viewbox, &surfaces(&[Tile(-9, 4), Tile(100, 100)]), false);
    let mut tiles = pop_all(&mut pending);
    tiles.sort_by_key(|tile| (tile.1, tile.0));
    assert_eq!(tiles, collect(viewbox.interest_rect.iter(true)));
}

#[test]
fn only_visible_tiles_are_pending_while_dragging() {
    let viewbox = TileViewbox::new_with_interest(&Viewbox { tiles: TileRect(-3, -3, -1, -1) }, 4);
    let mut pending = PendingTiles::new();
    pending.update(&viewbox, &surfaces(&[Tile(-3, -3)]), true);
    assert_eq!(pending.tile_rect, viewbox.visible_rect);
    assert!(pending.interest_cached.is_empty());
    assert!(pending.interest_uncached.is_empty());
    assert_eq!(pending.list.len(), 9);
    assert_eq!(pending.pop(), Some(Tile(-3, -3)));
    assert_eq!(pending.pop(), Some(Tile(-2, -2)));
}

#[test]
fn update_starts_over() {
    let mut pending = PendingTiles::new();
    let first = TileViewbox::new_with_interest(&Viewbox { tiles: TileRect(0, 0, 4, 4) }, 0);
    pending.update(&first, &surfaces(&[]), false);
    let second = TileViewbox::new_with_interest(&Viewbox { tiles: TileRect(7, 7, 7, 7) }, 0);
    pending.update(&second, &surfaces(&[Tile(7, 7)]), false);
    assert_eq!(pop_all(&mut pending), vec![Tile(7, 7)]);
}

#[test]
fn wide_rectangle_can_be_ordered() {
    let viewbox = Viewbox { tiles: TileRect(-16384, 0x1FFF_FFFF, 16383, 0x2000_0000) };
    let mut pending = PendingTiles::new();
    pending.update(&TileViewbox::new_with_interest(&viewbox, 0), &surfaces(&[]), false);
    assert_eq!(pending.list.len(), 65536);
    assert_eq!(pending.tile_order[0], (16384 * 16384 + 1, Tile(-16384, 0x2000_0000)));
    assert_eq!(pending.pop(), Some(Tile(0, 0x1FFF_FFFF)));
}

#[test]
fn edges_follow_the_exact_edge() {
    let mut last = 0;
    for quarter in 2..10000 {
        let exact = quarter as f32 / 4.0;
        let paint = paint_tile_size(exact.round() as i32);
        let screen = screen_tile_size_i32(exact.ceil() as i32);
        assert!(1 <= paint && paint <= TILE_PAINT_SIZE_CAP && last <= paint);
        assert!(((screen - 1) as f32) < exact && exact <= screen as f32);
        assert!(screen >= paint);
        last = paint;
    }
    assert_eq!(paint_tile_size(0.5f32.round() as i32), 1);
    assert_eq!(paint_tile_size(700.5f32.round() as i32), 701);
    assert_eq!(screen_tile_size_i32(0.25f32.ceil() as i32), 1);
    assert_eq!(screen_tile_size_i32(1536.25f32.ceil() as i32), 1537);
}

#[test]
fn reversed_rectangle_has_nothing_pending() {
    // A ring of negative width turns the view inside out.
    for (tiles, interest) in [(TileRect(0, 0, 0, 0), -1), (TileRect(5, 9, 2, 6), 0)] {
        let viewbox = TileViewbox::new_with_interest(&Viewbox { tiles }, interest);
        assert!(viewbox.interest_rect.is_degenerate());
        let mut pending = PendingTiles::new();
        pending.update(&viewbox, &surfaces(&[Tile(0, 0)]), false);
        assert_eq!(pending.tile_rect, viewbox.interest_rect);
        assert!(pending.tile_order.is_empty());
        assert_eq!(pending.pop(), None);
    }
}
