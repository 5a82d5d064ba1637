//! The edges of a tile in pixels.
//!
//! There are three, which are not to be mixed: the edge that a tile is
//! painted at, the edge of its slot in the atlas, and its edge on the screen.
use crate::images::size::{
    larger, lemma_nearest, max_i32, min_i32, nearest, smaller, ISize,
};
use vstd::prelude::*;

verus! {

/// Largest edge in pixels of the surfaces that a tile is painted on.
///
/// Without it a display with four device pixels to a point asks for tiles of
/// 2048 pixels and for effect surfaces that take half a gigabyte.
pub const TILE_PAINT_SIZE_CAP: i32 = 1024;

/// Least number of slots on a side of the atlas, so that large tiles still
/// pack enough of them.
pub const ATLAS_MIN_SLOTS_SIDE: i32 = 8;

/// The edge that a tile is painted at where `ideal` is the edge at full
/// resolution in whole pixels.
pub open spec fn paint_edge(ideal: int) -> int {
    smaller(larger(ideal, 1), TILE_PAINT_SIZE_CAP as int)
}

/// The edge of a tile on the screen where `rounded_up` is the exact edge
/// rounded up.
pub open spec fn screen_edge(rounded_up: int) -> int {
    larger(rounded_up, 1)
}

/// `num / den` rounded up.
pub open spec fn ceiling(num: int, den: int) -> int {
    -((-num) / den)
}

/// The edge that a tile is painted at, of which `ideal` is the edge at full
/// resolution in whole pixels: that, but at least one pixel and at most
/// [`TILE_PAINT_SIZE_CAP`].
pub fn paint_tile_size(ideal: i32) -> (edge: i32)
    ensures
        edge == paint_edge(ideal as int),
{
    min_i32(max_i32(ideal, 1), TILE_PAINT_SIZE_CAP)
}

/// The size of the surface that a tile is painted on.
pub fn get_tile_dimensions(ideal: i32) -> (size: ISize)
    ensures
        size.width == paint_edge(ideal as int),
        size.height == paint_edge(ideal as int),
{
    let edge: i32 = paint_tile_size(ideal);
    ISize { width: edge, height: edge }
}

/// The edge of a tile on the screen in whole pixels, of which `rounded_up` is
/// the exact edge rounded up: at least one pixel, with no upper limit.
pub fn screen_tile_size_i32(rounded_up: i32) -> (edge: i32)
    ensures
        edge == screen_edge(rounded_up as int),
{
    max_i32(rounded_up, 1)
}

/// The edge of a slot in an atlas of edge `atlas`, for tiles painted at edge
/// `paint`.
pub open spec fn slot_edge(paint: int, atlas: int) -> int {
    smaller(larger(paint, 1), larger(larger(atlas, 1) / ATLAS_MIN_SLOTS_SIDE as int, 1))
}

/// The edge of a slot in the atlas: that of the painted tile where it fits,
/// else one that leaves the atlas at least [`ATLAS_MIN_SLOTS_SIDE`] slots on a
/// side.
pub fn atlas_slot_size(paint_size: i32, atlas_texture_size: i32) -> (edge: i32)
    ensures
        edge == slot_edge(paint_size as int, atlas_texture_size as int),
{
    let paint_size: i32 = max_i32(paint_size, 1);
    let atlas_texture_size: i32 = max_i32(atlas_texture_size, 1);
    let max_slot: i32 = max_i32(atlas_texture_size / ATLAS_MIN_SLOTS_SIDE, 1);
    min_i32(paint_size, max_slot)
}

/// A fraction rounded up is the least integer that is not below it.
proof fn lemma_ceiling(num: int, den: int)
    requires
        den > 0,
    ensures
        (ceiling(num, den) - 1) * den < num <= ceiling(num, den) * den,
{
    let q = (-num) / den;
    assert(den * q <= -num < den * q + den) by (nonlinear_arith)
        requires
            den > 0,
            q == (-num) / den,
    ;
    assert((-q - 1) * den == -(den * q) - den && (-q) * den == -(den * q)) by (nonlinear_arith);
}

/// A tile whose exact edge is the fraction `num / den`, of at least half a
/// pixel, is painted at that edge rounded to the nearest integer, up to the
/// cap; and a tile whose exact edge is no smaller is painted no smaller.
pub proof fn law_paint_edge_is_the_nearest_up_to_the_cap(
    num: int,
    den: int,
    other_num: int,
    other_den: int,
)
    requires
        den > 0,
        other_den > 0,
        den <= 2 * num,
    ensures
        paint_edge(nearest(num, den)) == smaller(nearest(num, den), TILE_PAINT_SIZE_CAP as int),
        1 <= paint_edge(nearest(num, den)) <= TILE_PAINT_SIZE_CAP,
        num * other_den <= other_num * den ==> paint_edge(nearest(num, den)) <= paint_edge(
            nearest(other_num, other_den),
        ),
{
    let p = nearest(num, den);
    let q = nearest(other_num, other_den);
    lemma_nearest(num, den);
    lemma_nearest(other_num, other_den);
    assert(p >= 1) by (nonlinear_arith)
        requires
            den > 0,
            den <= 2 * num,
            2 * num < (2 * p + 1) * den,
    ;
    if num * other_den <= other_num * den {
        assert(p <= q) by {
            if p > q {
                let a = (2 * p - 1) * den;
                let b = (2 * q + 1) * other_den;
                assert(a * other_den <= 2 * num * other_den) by (nonlinear_arith)
                    requires
                        a <= 2 * num,
                        other_den > 0,
                ;
                assert(2 * other_num * den < b * den) by (nonlinear_arith)
                    requires
                        2 * other_num < b,
                        den > 0,
                ;
                assert(2 * num * other_den <= 2 * other_num * den) by (nonlinear_arith)
                    requires
                        num * other_den <= other_num * den,
                ;
                assert(b * den <= a * other_den) by (nonlinear_arith)
                    requires
                        a == (2 * p - 1) * den,
                        b == (2 * q + 1) * other_den,
                        p >= q + 1,
                        den > 0,
                        other_den > 0,
                ;
            }
        }
    }
}

/// A tile whose exact edge is the fraction `num / den`, over 0, has on the
/// screen the least whole edge that is not below that, whatever the cap of the
/// painted tile; it is no smaller there than it is painted.
pub proof fn law_screen_edge_is_the_ceiling(num: int, den: int)
    requires
        den > 0,
        num > 0,
    ensures
        (screen_edge(ceiling(num, den)) - 1) * den < num <= screen_edge(ceiling(num, den)) * den,
        screen_edge(ceiling(num, den)) >= 1,
        den <= 2 * num ==> paint_edge(nearest(num, den)) <= screen_edge(ceiling(num, den)),
{
    let c = ceiling(num, den);
    let p = nearest(num, den);
    lemma_ceiling(num, den);
    lemma_nearest(num, den);
    assert(c >= 1) by (nonlinear_arith)
        requires
            den > 0,
            num > 0,
            num <= c * den,
    ;
    assert(p <= c) by (nonlinear_arith)
        requires
            den > 0,
            (2 * p - 1) * den <= 2 * num,
            num <= c * den,
    ;
}

/// An atlas that is large enough for one pixel a slot has at least
/// [`ATLAS_MIN_SLOTS_SIDE`] slots on a side, each of at least one pixel and
/// none larger than the painted tile.
pub proof fn law_atlas_has_enough_slots(paint: int, atlas: int)
    requires
        atlas >= ATLAS_MIN_SLOTS_SIDE,
    ensures
        1 <= slot_edge(paint, atlas) <= larger(paint, 1),
        slot_edge(paint, atlas) * ATLAS_MIN_SLOTS_SIDE <= atlas,
        atlas / slot_edge(paint, atlas) >= ATLAS_MIN_SLOTS_SIDE,
{
    let edge = slot_edge(paint, atlas);
    assert(atlas / edge >= 8) by (nonlinear_arith)
        requires
            1 <= edge,
            edge * 8 <= atlas,
    ;
}

/// A tile is packed at the edge it is painted at wherever the atlas has room
/// for enough such slots.
pub proof fn law_atlas_keeps_paint_size_that_fits(paint: int, atlas: int)
    requires
        1 <= paint,
        paint * ATLAS_MIN_SLOTS_SIDE <= atlas,
    ensures
        slot_edge(paint, atlas) == paint,
{
}

} // verus!
