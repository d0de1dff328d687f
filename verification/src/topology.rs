//! Addressing on a toroidal hexagonal grid with shoved rows.
//!
//! Rows are offset against each other, so the column offset of a diagonal
//! step depends on the parity of the row it starts from. Every coordinate
//! wraps around both edges of the grid.

use vstd::prelude::*;

verus! {

/// The six neighbours of a tile, in the canonical order that every phase
/// uses to number them from 0 to 5.
#[derive(Clone, Copy, PartialEq, Eq, Debug, Structural)]
pub enum Direction {
    UpRight,
    UpLeft,
    Left,
    DownLeft,
    DownRight,
    Right,
}

impl Direction {
    /// Position of this direction in the canonical order.
    pub open spec fn index(self) -> int {
        match self {
            Direction::UpRight => 0,
            Direction::UpLeft => 1,
            Direction::Left => 2,
            Direction::DownLeft => 3,
            Direction::DownRight => 4,
            Direction::Right => 5,
        }
    }

    /// The direction at position `i` of the canonical order, counted modulo 6.
    pub open spec fn at(i: int) -> Direction {
        let k = i % 6;
        if k == 0 {
            Direction::UpRight
        } else if k == 1 {
            Direction::UpLeft
        } else if k == 2 {
            Direction::Left
        } else if k == 3 {
            Direction::DownLeft
        } else if k == 4 {
            Direction::DownRight
        } else {
            Direction::Right
        }
    }

    /// The direction that points the other way: three positions further on
    /// in the canonical order.
    pub open spec fn opposite(self) -> Direction {
        Direction::at(self.index() + 3)
    }

    /// Whether a step in this direction stays in its row.
    pub open spec fn lateral(self) -> bool {
        self == Direction::Left || self == Direction::Right
    }

    /// Column and row offset of one step, for a start row of the given
    /// parity.
    pub open spec fn offset(self, even: bool) -> (int, int) {
        match self {
            Direction::UpRight => (if even { 1 } else { 0 }, -1),
            Direction::UpLeft => (if even { 0 } else { -1 }, -1),
            Direction::Left => (-1, 0),
            Direction::DownLeft => (if even { 0 } else { -1 }, 1),
            Direction::DownRight => (if even { 1 } else { 0 }, 1),
            Direction::Right => (1, 0),
        }
    }

    /// Position of this direction in the canonical order.
    pub fn ordinal(self) -> (i: usize)
        ensures
            i == self.index(),
            i < 6,
    {
        match self {
            Direction::UpRight => 0,
            Direction::UpLeft => 1,
            Direction::Left => 2,
            Direction::DownLeft => 3,
            Direction::DownRight => 4,
            Direction::Right => 5,
        }
    }

    /// The direction at position `i % 6` of the canonical order.
    pub fn from_ordinal(i: usize) -> (d: Direction)
        ensures
            d == Direction::at(i as int),
    {
        let k: usize = i % 6;
        if k == 0 {
            Direction::UpRight
        } else if k == 1 {
            Direction::UpLeft
        } else if k == 2 {
            Direction::Left
        } else if k == 3 {
            Direction::DownLeft
        } else if k == 4 {
            Direction::DownRight
        } else {
            Direction::Right
        }
    }

    /// The opposite direction.
    pub fn flip(self) -> (d: Direction)
        ensures
            d == self.opposite(),
            d.index() == (self.index() + 3) % 6,
    {
        match self {
            Direction::UpRight => Direction::DownLeft,
            Direction::UpLeft => Direction::DownRight,
            Direction::Left => Direction::Right,
            Direction::DownLeft => Direction::UpRight,
            Direction::DownRight => Direction::UpLeft,
            Direction::Right => Direction::Left,
        }
    }

    /// Column and row offset of one step from a row of the given parity.
    pub fn delta(self, even: bool) -> (d: (isize, isize))
        ensures
            d.0 == self.offset(even).0,
            d.1 == self.offset(even).1,
    {
        match self {
            Direction::UpRight => (if even { 1 } else { 0 }, -1),
            Direction::UpLeft => (if even { 0 } else { -1 }, -1),
            Direction::Left => (-1, 0),
            Direction::DownLeft => (if even { 0 } else { -1 }, 1),
            Direction::DownRight => (if even { 1 } else { 0 }, 1),
            Direction::Right => (1, 0),
        }
    }
}

/// The coordinate reached from `(x, y)` by one step in direction `d` on a
/// torus of the given size. The parity that selects the column offset is
/// that of `y` itself.
pub open spec fn neighbor(x: int, y: int, width: int, height: int, d: Direction) -> (int, int) {
    let off = d.offset(y % 2 == 0);
    ((x + off.0) % width, (y + off.1) % height)
}

/// Row-major index of the tile at `(x, y)`.
pub open spec fn tile_index(x: int, y: int, width: int) -> int {
    x + y * width
}

/// Row-major index of the tile that `(x, y)` names once both parts are taken
/// modulo the size of the grid.
pub open spec fn spot(x: int, y: int, width: int, height: int) -> int {
    tile_index(x % width, y % height, width)
}

/// Every wrapped coordinate names one of the `width * height` tiles.
pub proof fn lemma_spot_in_range(x: int, y: int, width: int, height: int)
    requires
        width >= 1,
        height >= 1,
    ensures
        0 <= spot(x, y, width, height) < width * height,
        0 <= (y % height) * width <= width * height - width,
        0 <= x % width < width,
        0 <= y % height < height,
{
    let cy = y % height;
    assert(0 <= cy * width <= (height - 1) * width) by (nonlinear_arith)
        requires
            0 <= cy <= height - 1,
            width >= 1,
    ;
    assert((height - 1) * width + width == width * height) by (nonlinear_arith);
}

/// A coordinate inside the grid names a tile, and wrapping leaves it as it
/// is.
pub proof fn lemma_index_in_range(x: int, y: int, width: int, height: int)
    requires
        0 <= x < width,
        0 <= y < height,
    ensures
        0 <= tile_index(x, y, width) < width * height,
        spot(x, y, width, height) == tile_index(x, y, width),
        x % width == x,
        y % height == y,
        tile_index(x, y, width) % width == x,
        tile_index(x, y, width) / width == y,
{
    vstd::arithmetic::div_mod::lemma_fundamental_div_mod_converse(
        tile_index(x, y, width),
        width,
        y,
        x,
    );
    lemma_spot_in_range(x, y, width, height);
    vstd::arithmetic::div_mod::lemma_small_mod(x as nat, width as nat);
    vstd::arithmetic::div_mod::lemma_small_mod(y as nat, height as nat);
}

/// A row-major index splits into the column and row that it was made of.
pub proof fn lemma_index_splits(k: int, width: int, height: int)
    requires
        width >= 1,
        0 <= k < width * height,
    ensures
        0 <= k % width < width,
        0 <= k / width < height,
        tile_index(k % width, k / width, width) == k,
        spot(k % width, k / width, width, height) == k,
        (k % width) % width == k % width,
        (k / width) % height == k / width,
{
    vstd::arithmetic::div_mod::lemma_fundamental_div_mod(k, width);
    let q = k / width;
    let r = k % width;
    assert(q < height) by (nonlinear_arith)
        requires
            width * q + r == k,
            0 <= r,
            k < width * height,
            width >= 1,
    ;
    assert(0 <= q) by (nonlinear_arith)
        requires
            width * q + r == k,
            r < width,
            0 <= k,
            width >= 1,
    ;
    assert(q * width == width * q) by (nonlinear_arith);
    vstd::arithmetic::div_mod::lemma_small_mod(r as nat, width as nat);
    vstd::arithmetic::div_mod::lemma_small_mod(q as nat, height as nat);
}

/// Two coordinates inside the grid share an index only if they are equal.
pub proof fn lemma_index_injective(x1: int, y1: int, x2: int, y2: int, width: int)
    requires
        0 <= x1 < width,
        0 <= x2 < width,
        tile_index(x1, y1, width) == tile_index(x2, y2, width),
    ensures
        x1 == x2,
        y1 == y2,
{
    assert(y1 == y2) by (nonlinear_arith)
        requires
            0 <= x1 < width,
            0 <= x2 < width,
            x1 + y1 * width == x2 + y2 * width,
    ;
    assert(y1 * width == y2 * width);
}

/// A step on the torus ends on a tile of the grid.
pub proof fn lemma_neighbor_in_range(x: int, y: int, width: int, height: int, d: Direction)
    requires
        width >= 1,
        height >= 1,
    ensures
        0 <= neighbor(x, y, width, height, d).0 < width,
        0 <= neighbor(x, y, width, height, d).1 < height,
{
    let off = d.offset(y % 2 == 0);
    vstd::arithmetic::div_mod::lemma_mod_bound(x + off.0, width);
    vstd::arithmetic::div_mod::lemma_mod_bound(y + off.1, height);
}

/// Moves a coordinate already reduced modulo `n` by -1, 0 or 1, wrapping
/// around the edge.
fn shift(c: usize, d: isize, n: usize) -> (r: usize)
    requires
        c < n,
        -1 <= d <= 1,
    ensures
        r == (c + d) % (n as int),
        r < n,
{
    let r: usize = if d == 1 {
        if c == n - 1 {
            0
        } else {
            c + 1
        }
    } else if d == -1 {
        if c == 0 {
            n - 1
        } else {
            c - 1
        }
    } else {
        c
    };
    proof {
        lemma_wrapped_step(c as int, d as int, n as int);
    }
    r
}

/// The wrapped coordinate of the neighbour of `(x, y)` in the given
/// direction. Coordinates beyond the grid are taken modulo its size.
pub fn in_direction(x: usize, y: usize, width: usize, height: usize, direction: Direction) -> (r: (
    usize,
    usize,
))
    requires
        width > 0,
        height > 0,
    ensures
        (r.0 as int, r.1 as int) == neighbor(x as int, y as int, width as int, height as int, direction),
        r.0 < width,
        r.1 < height,
{
    let diff = direction.delta(y % 2 == 0);
    proof {
        vstd::arithmetic::div_mod::lemma_add_mod_noop_right(diff.0 as int, x as int, width as int);
        vstd::arithmetic::div_mod::lemma_add_mod_noop_right(diff.1 as int, y as int, height as int);
    }
    (shift(x % width, diff.0, width), shift(y % height, diff.1, height))
}

/// The six neighbours of `(x, y)` in canonical order.
pub fn neighbors(x: usize, y: usize, width: usize, height: usize) -> (r: [(usize, usize); 6])
    requires
        width > 0,
        height > 0,
    ensures
        forall|i: int|
            0 <= i < 6 ==> (#[trigger] r[i].0 as int, r[i].1 as int) == neighbor(
                x as int,
                y as int,
                width as int,
                height as int,
                Direction::at(i),
            ),
        forall|i: int| 0 <= i < 6 ==> (#[trigger] r[i]).0 < width && r[i].1 < height,
{
    [
        in_direction(x, y, width, height, Direction::UpRight),
        in_direction(x, y, width, height, Direction::UpLeft),
        in_direction(x, y, width, height, Direction::Left),
        in_direction(x, y, width, height, Direction::DownLeft),
        in_direction(x, y, width, height, Direction::DownRight),
        in_direction(x, y, width, height, Direction::Right),
    ]
}

/// A coordinate inside `0..n` moved by at most one place wraps to the other
/// end exactly when it leaves the range.
pub proof fn lemma_wrapped_step(c: int, d: int, n: int)
    requires
        0 <= c < n,
        -1 <= d <= 1,
    ensures
        (c + d) % n == if c + d == n {
            0
        } else if c + d == -1 {
            n - 1
        } else {
            c + d
        },
{
    if c + d == n {
        vstd::arithmetic::div_mod::lemma_fundamental_div_mod_converse(c + d, n, 1, 0);
    } else if c + d == -1 {
        vstd::arithmetic::div_mod::lemma_fundamental_div_mod_converse(c + d, n, -1, n - 1);
    } else {
        vstd::arithmetic::div_mod::lemma_fundamental_div_mod_converse(c + d, n, 0, c + d);
    }
}

/// The opposite of the opposite is the direction itself, and the opposite
/// sits three positions further on in the canonical order.
pub proof fn lemma_opposite(d: Direction)
    ensures
        d.opposite().opposite() == d,
        d.opposite() != d,
        d.opposite().index() == (d.index() + 3) % 6,
        Direction::at(d.index()) == d,
        d.opposite().lateral() == d.lateral(),
{
}

/// Steps in one direction from two different tiles end on two different
/// tiles: whoever is reached from a tile in a given direction is reached
/// from no other tile in that direction.
pub proof fn lemma_step_injective(
    x1: int,
    y1: int,
    x2: int,
    y2: int,
    width: int,
    height: int,
    d: Direction,
)
    requires
        0 <= x1 < width,
        0 <= y1 < height,
        0 <= x2 < width,
        0 <= y2 < height,
        neighbor(x1, y1, width, height, d) == neighbor(x2, y2, width, height, d),
    ensures
        x1 == x2,
        y1 == y2,
{
    let one = d.offset(y1 % 2 == 0);
    let two = d.offset(y2 % 2 == 0);
    lemma_wrapped_step(y1, one.1, height);
    lemma_wrapped_step(y2, two.1, height);
    assert(y1 == y2);
    lemma_wrapped_step(x1, one.0, width);
    lemma_wrapped_step(x2, two.0, width);
}

/// Toroidal closure: a step to a neighbour followed by a step in the
/// opposite direction leads back to the start, provided the step stays in
/// its row, the grid is a single column, or the step changes the parity of
/// the row.
pub proof fn lemma_step_and_back(x: int, y: int, width: int, height: int, d: Direction)
    requires
        0 <= x < width,
        0 <= y < height,
        d.lateral() || width == 1 || neighbor(x, y, width, height, d).1 % 2 != y % 2,
    ensures
        ({
            let n = neighbor(x, y, width, height, d);
            neighbor(n.0, n.1, width, height, d.opposite()) == (x, y)
        }),
{
    let off = d.offset(y % 2 == 0);
    let n = neighbor(x, y, width, height, d);
    let back = d.opposite().offset(n.1 % 2 == 0);
    lemma_wrapped_step(x, off.0, width);
    lemma_wrapped_step(y, off.1, height);
    lemma_wrapped_step(n.0, back.0, width);
    lemma_wrapped_step(n.1, back.1, height);
}

/// Where a diagonal step keeps the parity of the row (it wrapped around a
/// grid of odd height) and the grid has more than one column, the opposite
/// step does not lead back: the closure fails on exactly these inputs.
pub proof fn lemma_step_and_back_fails(x: int, y: int, width: int, height: int, d: Direction)
    requires
        0 <= x < width,
        0 <= y < height,
        !d.lateral(),
        width > 1,
        neighbor(x, y, width, height, d).1 % 2 == y % 2,
    ensures
        ({
            let n = neighbor(x, y, width, height, d);
            neighbor(n.0, n.1, width, height, d.opposite()) != (x, y)
        }),
{
    let off = d.offset(y % 2 == 0);
    let n = neighbor(x, y, width, height, d);
    let back = d.opposite().offset(n.1 % 2 == 0);
    lemma_wrapped_step(x, off.0, width);
    lemma_wrapped_step(y, off.1, height);
    lemma_wrapped_step(n.0, back.0, width);
    lemma_wrapped_step(n.1, back.1, height);
}

/// On a grid of even height every diagonal step changes the parity of the
/// row, so the closure of `lemma_step_and_back` holds for every tile and
/// every direction.
pub proof fn lemma_even_height_closes(x: int, y: int, width: int, height: int, d: Direction)
    requires
        0 <= x < width,
        0 <= y < height,
        height % 2 == 0,
    ensures
        d.lateral() || neighbor(x, y, width, height, d).1 % 2 != y % 2,
        ({
            let n = neighbor(x, y, width, height, d);
            neighbor(n.0, n.1, width, height, d.opposite()) == (x, y)
        }),
{
    let off = d.offset(y % 2 == 0);
    lemma_wrapped_step(y, off.1, height);
    lemma_step_and_back(x, y, width, height, d);
}

/// On a grid of at least three columns and three rows the six neighbours of
/// a tile are six different tiles, none of them the tile itself. Both
/// offset tables, that of even rows and that of odd rows, have this
/// property.
pub proof fn lemma_neighbors_distinct(x: int, y: int, width: int, height: int)
    requires
        0 <= x < width,
        0 <= y < height,
        width >= 3,
        height >= 3,
    ensures
        forall|d: Direction| #[trigger] neighbor(x, y, width, height, d) != (x, y),
        forall|a: Direction, b: Direction|
            a != b ==> #[trigger] neighbor(x, y, width, height, a) != #[trigger] neighbor(
                x,
                y,
                width,
                height,
                b,
            ),
{
    lemma_wrapped_step(x, -1, width);
    lemma_wrapped_step(x, 0, width);
    lemma_wrapped_step(x, 1, width);
    lemma_wrapped_step(y, -1, height);
    lemma_wrapped_step(y, 0, height);
    lemma_wrapped_step(y, 1, height);
}

} // verus!
