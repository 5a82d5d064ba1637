//! Tiles, rectangles of tiles and the walk over a rectangle.
use vstd::prelude::*;

verus! {

/// `v` is a value of type `i32`.
pub open spec fn fits_i32(v: int) -> bool {
    i32::MIN <= v <= i32::MAX
}

/// Half of `v`, rounded towards zero.
pub open spec fn half(v: int) -> int {
    if v >= 0 {
        v / 2
    } else {
        -((-v) / 2)
    }
}

/// A tile of the grid, by its column and its row.
#[derive(PartialEq, Eq, Structural, Hash, Clone, Copy, Debug)]
pub struct Tile(pub i32, pub i32);

impl Tile {
    pub fn from(x: i32, y: i32) -> (tile: Self)
        ensures
            tile == Tile(x, y),
    {
        Tile(x, y)
    }

    pub fn x(&self) -> (x: i32)
        ensures
            x == self.0,
    {
        self.0
    }

    pub fn y(&self) -> (y: i32)
        ensures
            y == self.1,
    {
        self.1
    }
}

/// A rectangle of tiles: first column, first row, last column, last row.
/// The last column and the last row belong to the rectangle.
#[derive(PartialEq, Eq, Structural, Hash, Clone, Copy, Debug)]
pub struct TileRect(pub i32, pub i32, pub i32, pub i32);

impl TileRect {
    /// The rectangle has a tile at column `x` and row `y`.
    pub open spec fn has(self, x: int, y: int) -> bool {
        self.0 <= x <= self.2 && self.1 <= y <= self.3
    }

    /// The rectangle has `tile`.
    pub open spec fn has_tile(self, tile: Tile) -> bool {
        self.has(tile.0 as int, tile.1 as int)
    }

    /// Neither side is reversed.
    pub open spec fn ordered(self) -> bool {
        self.0 <= self.2 && self.1 <= self.3
    }

    /// The number of columns that a walk goes through: with the last one if
    /// `inclusive`, else without it.
    pub open spec fn span_x(self, inclusive: bool) -> int {
        self.2 - self.0 + if inclusive { 1int } else { 0 }
    }

    /// The number of rows that a walk goes through.
    pub open spec fn span_y(self, inclusive: bool) -> int {
        self.3 - self.1 + if inclusive { 1int } else { 0 }
    }

    /// The numbers that a walk computes up front are values of type `i32`.
    pub open spec fn walkable(self, inclusive: bool) -> bool {
        &&& fits_i32(self.2 - self.0)
        &&& fits_i32(self.3 - self.1)
        &&& fits_i32(self.span_x(inclusive))
        &&& fits_i32(self.span_y(inclusive))
        &&& fits_i32(self.span_x(inclusive) * self.span_y(inclusive))
    }

    /// The columns and rows that a walk visits, in its order: row by row from
    /// the first row, each from the first column. A walk over a rectangle
    /// with both sides reversed has steps too: it runs to the right of the
    /// first column and upwards from the first row.
    pub open spec fn walk(self, inclusive: bool) -> Seq<(int, int)> {
        let w = self.span_x(inclusive);
        let n = w * self.span_y(inclusive);
        Seq::new(
            if n > 0 {
                n as nat
            } else {
                0
            },
            |i: int| (self.0 + i % w, self.1 + i / w),
        )
    }

    pub fn empty() -> (rect: Self)
        ensures
            rect == TileRect(0, 0, 0, 0),
    {
        TileRect(0, 0, 0, 0)
    }

    /// One of the sides is reversed: the rectangle has no tile.
    pub fn is_degenerate(&self) -> (degenerate: bool)
        ensures
            degenerate == !self.ordered(),
            degenerate == (forall|x: int, y: int| !self.has(x, y)),
    {
        proof {
            assert(self.ordered() ==> self.has(self.0 as int, self.1 as int));
        }
        self.left() > self.right() || self.top() > self.bottom()
    }

    /// The number of tiles, both last ones included.
    pub fn len(&self) -> (n: i32)
        requires
            self.walkable(true),
        ensures
            n == self.span_x(true) * self.span_y(true),
    {
        (self.width() + 1) * (self.height() + 1)
    }

    pub fn x1(&self) -> (x: i32)
        ensures
            x == self.0,
    {
        self.0
    }

    pub fn y1(&self) -> (y: i32)
        ensures
            y == self.1,
    {
        self.1
    }

    pub fn x2(&self) -> (x: i32)
        ensures
            x == self.2,
    {
        self.2
    }

    pub fn y2(&self) -> (y: i32)
        ensures
            y == self.3,
    {
        self.3
    }

    pub fn left(&self) -> (x: i32)
        ensures
            x == self.0,
    {
        self.0
    }

    pub fn top(&self) -> (y: i32)
        ensures
            y == self.1,
    {
        self.1
    }

    pub fn right(&self) -> (x: i32)
        ensures
            x == self.2,
    {
        self.2
    }

    pub fn bottom(&self) -> (y: i32)
        ensures
            y == self.3,
    {
        self.3
    }

    /// The number of columns, both the first and the last included.
    pub fn columns(&self) -> (n: i32)
        requires
            fits_i32(self.2 - self.0),
            fits_i32(self.span_x(true)),
        ensures
            n == self.span_x(true),
    {
        self.x2() - self.x1() + 1
    }

    /// The number of rows, both the first and the last included.
    pub fn rows(&self) -> (n: i32)
        requires
            fits_i32(self.3 - self.1),
            fits_i32(self.span_y(true)),
        ensures
            n == self.span_y(true),
    {
        self.y2() - self.y1() + 1
    }

    /// The number of columns without the last.
    pub fn width(&self) -> (n: i32)
        requires
            fits_i32(self.2 - self.0),
        ensures
            n == self.2 - self.0,
    {
        self.x2() - self.x1()
    }

    /// The number of rows without the last.
    pub fn height(&self) -> (n: i32)
        requires
            fits_i32(self.3 - self.1),
        ensures
            n == self.3 - self.1,
    {
        self.y2() - self.y1()
    }

    pub fn contains(&self, tile: &Tile) -> (found: bool)
        ensures
            found == self.has_tile(*tile),
    {
        tile.x() >= self.left() && tile.y() >= self.top() && tile.x() <= self.right() && tile.y()
            <= self.bottom()
    }

    /// A walk over the rectangle, with the last column and row if `inclusive`.
    pub fn iter(self, inclusive: bool) -> (walk: TileRectIter)
        requires
            self.walkable(inclusive),
        ensures
            walk@ == self.walk(inclusive),
    {
        TileRectIter::new(self, inclusive)
    }
}

/// A walk over a rectangle. Its view is what it has still to visit.
pub struct TileRectIter {
    rect: TileRect,
    inclusive: bool,
    index: i32,
    total: i32,
}

impl TileRectIter {
    #[verifier::type_invariant]
    spec fn inv(self) -> bool {
        &&& self.rect.walkable(self.inclusive)
        &&& self.total == self.rect.span_x(self.inclusive) * self.rect.span_y(self.inclusive)
        &&& 0 <= self.index
        &&& self.total > 0 ==> self.index <= self.total
        &&& self.total <= 0 ==> self.index == 0
    }

    /// The columns and rows still to visit.
    pub closed spec fn view(&self) -> Seq<(int, int)> {
        self.rect.walk(self.inclusive).skip(self.index as int)
    }

    fn new(rect: TileRect, inclusive: bool) -> (walk: Self)
        requires
            rect.walkable(inclusive),
        ensures
            walk@ == rect.walk(inclusive),
    {
        let width: i32 = rect.width() + if inclusive {
            1
        } else {
            0
        };
        let height: i32 = rect.height() + if inclusive {
            1
        } else {
            0
        };
        let walk = TileRectIter { rect, inclusive, index: 0, total: width * height };
        assert(walk@ =~= rect.walk(inclusive));
        walk
    }

    /// The next tile of the walk, or `None` at its end.
    pub fn next(&mut self) -> (tile: Option<Tile>)
        requires
            old(self)@.len() > 0 ==> fits_i32(old(self)@[0].0) && fits_i32(old(self)@[0].1),
        ensures
            match tile {
                Some(t) => {
                    &&& old(self)@.len() > 0
                    &&& (t.0 as int, t.1 as int) == old(self)@[0]
                    &&& final(self)@ == old(self)@.skip(1)
                },
                None => old(self)@.len() == 0 && final(self)@ == old(self)@,
            },
    {
        proof {
            use_type_invariant(&*self);
        }
        if self.index >= self.total {
            return None;
        }
        let width: i32 = self.rect.width() + if self.inclusive {
            1
        } else {
            0
        };
        proof {
            let h = self.rect.span_y(self.inclusive);
            assert(width != 0) by (nonlinear_arith)
                requires
                    width * h > 0,
            ;
            if width < 0 {
                lemma_truncated_division(self.index as int, width as int);
            }
            assert(old(self)@[0] == self.rect.walk(self.inclusive)[self.index as int]);
        }
        let x: i32 = self.rect.left() + self.index % width;
        let y: i32 = self.rect.top() + self.index / width;
        self.index = self.index + 1;
        assert(self@ =~= old(self)@.skip(1));
        Some(Tile::from(x, y))
    }
}

/// Division of a number that is not negative comes out the same whether it
/// rounds towards zero or leaves a remainder that is not negative.
proof fn lemma_truncated_division(i: int, w: int)
    requires
        i >= 0,
        w < 0,
    ensures
        i / w == -(i / (-w)),
        i % w == i % (-w),
{
    assert(i / w == -(i / (-w)) && i % w == i % (-w)) by (nonlinear_arith)
        requires
            i >= 0,
            w < 0,
    ;
}

/// Where a walk with `w` columns is at its step `i`, relative to its start.
proof fn lemma_step(i: int, w: int, h: int)
    requires
        0 <= i < w * h,
        0 < w,
    ensures
        0 <= i % w < w,
        0 <= i / w < h,
        i == (i / w) * w + i % w,
{
    assert(0 <= i % w < w && 0 <= i / w < h && i == (i / w) * w + i % w) by (nonlinear_arith)
        requires
            0 <= i < w * h,
            0 < w,
    ;
}

/// At which step a walk with `w` columns is at column `x` of row `y`.
proof fn lemma_step_of(x: int, y: int, w: int, h: int)
    requires
        0 <= x < w,
        0 <= y < h,
    ensures
        0 <= y * w + x < w * h,
        (y * w + x) % w == x,
        (y * w + x) / w == y,
{
    vstd::arithmetic::div_mod::lemma_fundamental_div_mod_converse(y * w + x, w, y, x);
    assert(0 <= y * w + x < w * h) by (nonlinear_arith)
        requires
            0 <= x < w,
            0 <= y < h,
    ;
}

/// A walk over a rectangle whose sides are not reversed visits exactly the
/// tiles of the rectangle, without the last column and row unless it is
/// inclusive, and each of them once.
pub proof fn law_walk_visits_each_tile_once(rect: TileRect, inclusive: bool)
    requires
        rect.ordered(),
    ensures
        rect.walk(inclusive).len() == rect.span_x(inclusive) * rect.span_y(inclusive),
        rect.walk(inclusive).no_duplicates(),
        forall|x: int, y: int|
            #[trigger] rect.walk(inclusive).contains((x, y)) <==> {
                &&& rect.has(x, y)
                &&& inclusive || (x != rect.2 && y != rect.3)
            },
{
    let walk = rect.walk(inclusive);
    let w = rect.span_x(inclusive);
    let h = rect.span_y(inclusive);
    assert(w * h >= 0) by (nonlinear_arith)
        requires
            w >= 0,
            h >= 0,
    ;
    assert forall|i: int, j: int|
        0 <= i < walk.len() && 0 <= j < walk.len() && i != j implies walk[i] != walk[j] by {
        lemma_nonzero_factor(w, h);
        lemma_step(i, w, h);
        lemma_step(j, w, h);
    }
    assert forall|x: int, y: int| #[trigger] walk.contains((x, y)) implies rect.has(x, y) && (
    inclusive || (x != rect.2 && y != rect.3)) by {
        let i = choose|i: int| 0 <= i < walk.len() && walk[i] == (x, y);
        lemma_nonzero_factor(w, h);
        lemma_step(i, w, h);
    }
    assert forall|x: int, y: int|
        rect.has(x, y) && (inclusive || (x != rect.2 && y
            != rect.3)) implies #[trigger] walk.contains((x, y)) by {
        lemma_step_of(x - rect.0, y - rect.1, w, h);
        let i = (y - rect.1) * w + (x - rect.0);
        assert(walk[i] == (x, y));
    }
}

/// Two factors that are not negative and have a positive product are positive.
proof fn lemma_nonzero_factor(w: int, h: int)
    requires
        w >= 0,
        h >= 0,
        w * h > 0,
    ensures
        w > 0,
        h > 0,
{
    assert(w > 0 && h > 0) by (nonlinear_arith)
        requires
            w >= 0,
            h >= 0,
            w * h > 0,
    ;
}

} // verus!
