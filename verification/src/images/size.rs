//! Pixel sizes.
use vstd::prelude::*;

verus! {

/// A size in whole pixels.
#[derive(PartialEq, Eq, Structural, Clone, Copy, Debug)]
pub struct ISize {
    pub width: i32,
    pub height: i32,
}

/// The larger of two numbers.
pub open spec fn larger(a: int, b: int) -> int {
    if a >= b {
        a
    } else {
        b
    }
}

/// The smaller of two numbers.
pub open spec fn smaller(a: int, b: int) -> int {
    if a <= b {
        a
    } else {
        b
    }
}

/// `num / den` rounded to the nearest integer, halves upwards.
pub open spec fn nearest(num: int, den: int) -> int {
    (2 * num + den) / (2 * den)
}

/// The integer nearest to a fraction, halves upwards, is at most one half away
/// from it.
pub(crate) proof fn lemma_nearest(num: int, den: int)
    requires
        den > 0,
    ensures
        (2 * nearest(num, den) - 1) * den <= 2 * num < (2 * nearest(num, den) + 1) * den,
{
    let q = nearest(num, den);
    assert(2 * den * q <= 2 * num + den < 2 * den * q + 2 * den) by (nonlinear_arith)
        requires
            den > 0,
            q == (2 * num + den) / (2 * den),
    ;
    assert((2 * q - 1) * den == 2 * den * q - den && (2 * q + 1) * den == 2 * den * q + den)
        by (nonlinear_arith);
}

/// The larger of two `i32`.
pub(crate) fn max_i32(a: i32, b: i32) -> (m: i32)
    ensures
        m == larger(a as int, b as int),
{
    if a >= b {
        a
    } else {
        b
    }
}

/// The smaller of two `i32`.
pub(crate) fn min_i32(a: i32, b: i32) -> (m: i32)
    ensures
        m == smaller(a as int, b as int),
{
    if a <= b {
        a
    } else {
        b
    }
}

impl ISize {
    /// The longer side, as a number.
    pub open spec fn spec_longest(self) -> int {
        larger(self.width as int, self.height as int)
    }

    /// The longer side.
    pub fn longest(&self) -> (side: i32)
        ensures
            side == self.spec_longest(),
    {
        max_i32(self.width, self.height)
    }

    /// The bytes of an RGBA texture of this size; a negative side counts as 0.
    pub open spec fn rgba_cost(self) -> nat {
        (larger(self.width as int, 0) * larger(self.height as int, 0) * 4) as nat
    }

    /// The bytes of an RGBA texture of this size; a negative side counts as 0.
    pub fn rgba_bytes(&self) -> (bytes: usize)
        requires
            self.rgba_cost() <= usize::MAX,
        ensures
            bytes == self.rgba_cost(),
    {
        let width: usize = max_i32(self.width, 0) as usize;
        let height: usize = max_i32(self.height, 0) as usize;
        assert(0 <= width * height <= width * height * 4) by (nonlinear_arith)
            requires
                width >= 0,
                height >= 0,
        ;
        width * height * 4
    }

    /// The bytes of an RGBA texture of this size, where a `usize` may be too
    /// small for them.
    pub fn wide_rgba_bytes(&self) -> (bytes: u128)
        ensures
            bytes == self.rgba_cost(),
            bytes <= 0x1_0000_0000_0000_0000,
    {
        let width: u128 = max_i32(self.width, 0) as u128;
        let height: u128 = max_i32(self.height, 0) as u128;
        assert(width * height <= 0x4000_0000_0000_0000) by (nonlinear_arith)
            requires
                0 <= width <= 0x8000_0000,
                0 <= height <= 0x8000_0000,
        ;
        width * height * 4
    }
}

/// The size at which a picture is shown, laid on its side or not.
pub open spec fn oriented(dimensions: ISize, swaps_width_height: bool) -> ISize {
    if swaps_width_height {
        ISize { width: dimensions.height, height: dimensions.width }
    } else {
        dimensions
    }
}

/// A picture that is laid on its side is as wide as it was high, as high as it
/// was wide, and back to what it was when that is done once more; its longer
/// side stays. One that is not stays what it was.
pub proof fn law_orientation_swaps_the_sides(dimensions: ISize, swaps: bool)
    ensures
        oriented(oriented(dimensions, swaps), swaps) == dimensions,
        oriented(dimensions, swaps).spec_longest() == dimensions.spec_longest(),
        oriented(dimensions, true).width == dimensions.height,
        oriented(dimensions, true).height == dimensions.width,
        oriented(dimensions, false).width == dimensions.width,
        oriented(dimensions, false).height == dimensions.height,
{
}

/// The size that an SVG document is laid out at.
pub open spec fn svg_layout<S>(intrinsic: Option<S>, view_box: Option<S>, default: S) -> S {
    match (intrinsic, view_box) {
        (Some(s), _) => s,
        (None, Some(s)) => s,
        (None, None) => default,
    }
}

/// The view box of a document matters only where it has no intrinsic size, and
/// the default only where it has no view box either.
pub proof fn law_intrinsic_size_comes_first<S>(size: S, view_box: Option<S>, other: S, default: S)
    ensures
        svg_layout(Some(size), view_box, default) == size,
        svg_layout(None, Some(other), default) == other,
        svg_layout(None, None, default) == default,
{
}

/// The size at which an encoded picture is shown: its stored dimensions, with
/// width and height swapped if its orientation lays it on its side.
pub fn native_size(dimensions: ISize, swaps_width_height: bool) -> (native: ISize)
    ensures
        native == (if swaps_width_height {
            ISize { width: dimensions.height, height: dimensions.width }
        } else {
            dimensions
        }),
        native == oriented(dimensions, swaps_width_height),
{
    if swaps_width_height {
        ISize { width: dimensions.height, height: dimensions.width }
    } else {
        dimensions
    }
}

/// A picture of size `native` needs no scaling to have no side over
/// `max_side`; 0 and less mean that there is no such limit.
pub open spec fn needs_no_scaling(native: ISize, max_side: int) -> bool {
    max_side <= 0 || larger(native.spec_longest(), 1) <= max_side
}

/// The size to decode a picture of size `native` at so that no side is over
/// `max_side`, `scaled` being the proportional size in whole pixels.
pub open spec fn fitted(native: ISize, max_side: int, scaled: ISize) -> ISize {
    if needs_no_scaling(native, max_side) {
        native
    } else {
        ISize {
            width: larger(scaled.width as int, 1) as i32,
            height: larger(scaled.height as int, 1) as i32,
        }
    }
}

/// `size` is what decoding a picture of size `native` to at most `max_side`
/// should give: `native` itself where it is small enough or there is no limit,
/// else one whose longer side is `max_side`.
pub open spec fn delivers(native: ISize, max_side: int, size: ISize) -> bool {
    if needs_no_scaling(native, max_side) {
        size == native
    } else {
        size.spec_longest() == max_side
    }
}

/// `scaled` is the size of a picture of size `native` when its longer side is
/// scaled to `max_side`, each side rounded to the nearest integer.
pub open spec fn proportional(native: ISize, max_side: int, scaled: ISize) -> bool {
    &&& scaled.width == nearest(native.width * max_side, native.spec_longest())
    &&& scaled.height == nearest(native.height * max_side, native.spec_longest())
}

/// A side `a` of a picture whose longer side is `longest`, scaled with it.
proof fn lemma_scaled_side(a: int, longest: int, max_side: int)
    requires
        1 <= a <= longest,
        1 <= max_side < longest,
    ensures
        0 <= nearest(a * max_side, longest) <= max_side,
        nearest(a * max_side, longest) <= a,
        a == longest ==> nearest(a * max_side, longest) == max_side,
{
    let q = nearest(a * max_side, longest);
    lemma_nearest(a * max_side, longest);
    assert(0 <= a * max_side <= longest * max_side && a * max_side <= a * longest)
        by (nonlinear_arith)
        requires
            1 <= a <= longest,
            1 <= max_side < longest,
    ;
    assert(q <= max_side) by (nonlinear_arith)
        requires
            (2 * q - 1) * longest <= 2 * (longest * max_side),
            longest > 0,
    ;
    assert(q <= a) by (nonlinear_arith)
        requires
            (2 * q - 1) * longest <= 2 * (a * longest),
            longest > 0,
    ;
    assert(q >= 0) by (nonlinear_arith)
        requires
            0 < (2 * q + 1) * longest,
            longest > 0,
    ;
    if a == longest {
        assert(q >= max_side) by (nonlinear_arith)
            requires
                2 * (longest * max_side) < (2 * q + 1) * longest,
                longest > 0,
        ;
    }
}

/// A picture that is fitted by its proportional size has `max_side` for its
/// longer side, or its own if that is shorter or there is no limit; each side
/// has at least one pixel and no more than it had.
pub proof fn law_fitted_size_is_proportional(native: ISize, max_side: int, scaled: ISize)
    requires
        1 <= native.width,
        1 <= native.height,
        !needs_no_scaling(native, max_side) ==> proportional(native, max_side, scaled),
    ensures
        ({
            let size = fitted(native, max_side, scaled);
            &&& delivers(native, max_side, size)
            &&& 1 <= size.width <= native.width
            &&& 1 <= size.height <= native.height
            &&& size.spec_longest() == (if max_side <= 0 {
                native.spec_longest()
            } else {
                smaller(max_side, native.spec_longest())
            })
        }),
{
    if !needs_no_scaling(native, max_side) {
        lemma_scaled_side(native.width as int, native.spec_longest(), max_side);
        lemma_scaled_side(native.height as int, native.spec_longest(), max_side);
    }
}

/// The size to decode a picture of size `native` at so that no side is over
/// `max_side`: `native` itself where it is small enough or there is no limit,
/// else `scaled`, the proportional size rounded to whole pixels, with at least
/// one pixel on each side.
pub fn fit_size(native: ISize, max_side: i32, scaled: ISize) -> (size: ISize)
    ensures
        size == fitted(native, max_side as int, scaled),
{
    let longest: i32 = max_i32(native.longest(), 1);
    if max_side <= 0 || longest <= max_side {
        return native;
    }
    ISize { width: max_i32(scaled.width, 1), height: max_i32(scaled.height, 1) }
}

/// The side that a picture of size `native` is decoded to so that it fits
/// `side`, `scaled` being the proportional size rounded to whole pixels.
pub fn target_side(native: ISize, side: i32, scaled: ISize) -> (target: i32)
    ensures
        target == fitted(native, side as int, scaled).spec_longest(),
{
    fit_size(native, side, scaled).longest()
}

/// The size that an SVG document is laid out at before it is rounded up: its
/// intrinsic size (`None` where that is empty), else the size of its view box,
/// else `default`.
pub fn svg_size<S>(intrinsic: Option<S>, view_box: Option<S>, default: S) -> (size: S)
    ensures
        size == (match (intrinsic, view_box) {
            (Some(s), _) => s,
            (None, Some(s)) => s,
            (None, None) => default,
        }),
        size == svg_layout(intrinsic, view_box, default),
{
    match intrinsic {
        Some(size) => size,
        None => match view_box {
            Some(size) => size,
            None => default,
        },
    }
}

} // verus!
