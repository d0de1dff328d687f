//! The tile store: a row-major torus of tiles and the integer parameters of
//! the simulation.

use crate::tile::Hex;
use crate::topology::{lemma_spot_in_range, spot};
use itertools::Itertools;
use vstd::prelude::*;

verus! {

/// The world: `width * height` tiles in row-major order, tile `(x, y)` at
/// index `x + y * width`.
pub struct Grid {
    /// Whether the host is to spawn organisms at the start of a tick.
    pub spawning: bool,
    pub width: usize,
    pub height: usize,
    /// An organism with less inhale than this dies in the death phase.
    pub inhale_minimum: usize,
    /// Feeding raises the inhale of an organism up to this value.
    pub inhale_cap: usize,
    /// What an organism pays for moving to a neighbouring tile.
    pub movement_cost: usize,
    /// What an organism pays, on top of the movement cost, for offspring.
    pub divide_cost: usize,
    /// The inhale an organism needs for its explosion to take effect.
    pub explode_requirement: usize,
    pub tiles: Vec<Hex>,
}

/// `count` blank tiles.
pub open spec fn blank_tiles(count: nat) -> Seq<Hex> {
    Seq::new(count, |i: int| Hex::blank())
}

/// Whether a grid of this size can be laid out in memory: one
/// two-word entry per tile must stay within the largest allocation.
pub open spec fn storable(width: int, height: int) -> bool {
    0 <= width * height * 16 <= isize::MAX
}

/// All pairs `(i, j)` with `i` below `rows` and `j` below `cols`, those with
/// the smaller `i` first and, among equal `i`, those with the smaller `j`
/// first.
///
/// Trusted: the body calls `Itertools::cartesian_product` on the two ranges
/// and `Itertools::collect_vec` on the product. The contract states the
/// order in which that adaptor walks its two iterators: the second one is
/// restarted for every item of the first.
#[verifier::external_body]
fn lattice(rows: usize, cols: usize) -> (r: Vec<(usize, usize)>)
    requires
        storable(cols as int, rows as int),
    ensures
        r@.len() == rows * cols,
        forall|k: int|
            0 <= k < r@.len() ==> (#[trigger] r@[k]).0 == k / (cols as int) && r@[k].1 == k % (
            cols as int),
{
    (0..rows).cartesian_product(0..cols).collect_vec()
}

/// For every tile index, in order, the point at which the terrain of that
/// tile is sampled: tile `k` is sampled at `(k / width, k % width)`, its row
/// first and its column second.
pub fn sample_sites(width: usize, height: usize) -> (sites: Vec<(usize, usize)>)
    requires
        storable(width as int, height as int),
    ensures
        sites@.len() == width * height,
        forall|k: int|
            0 <= k < sites@.len() ==> (#[trigger] sites@[k]).0 == k / (width as int) && sites@[k].1
                == k % (width as int),
{
    proof {
        assert(height * width == width * height) by (nonlinear_arith);
    }
    lattice(height, width)
}

/// A fresh tile store for a grid of the given size: one blank tile for each
/// sample site.
pub fn randomizing_vec(width: usize, height: usize) -> (tiles: Vec<Hex>)
    requires
        storable(width as int, height as int),
    ensures
        tiles@ == blank_tiles((width * height) as nat),
{
    let sites = sample_sites(width, height);
    let mut tiles: Vec<Hex> = Vec::new();
    let mut k: usize = 0;
    while k < sites.len()
        invariant
            k <= sites@.len(),
            sites@.len() == width * height,
            tiles@ == blank_tiles(k as nat),
        decreases sites@.len() - k,
    {
        tiles.push(Hex::vacant());
        k = k + 1;
        assert(tiles@ =~= blank_tiles(k as nat));
    }
    tiles
}

impl Grid {
    /// A grid of blank tiles with the given size and parameters, with
    /// spawning switched on.
    pub fn new(
        width: usize,
        height: usize,
        inhale_minimum: usize,
        inhale_cap: usize,
        movement_cost: usize,
        divide_cost: usize,
        explode_requirement: usize,
    ) -> (g: Grid)
        requires
            width >= 1,
            height >= 1,
            storable(width as int, height as int),
        ensures
            g.wf(),
            g.spawning,
            g.width == width,
            g.height == height,
            g.inhale_minimum == inhale_minimum,
            g.inhale_cap == inhale_cap,
            g.movement_cost == movement_cost,
            g.divide_cost == divide_cost,
            g.explode_requirement == explode_requirement,
            g.tiles@ == blank_tiles((width * height) as nat),
    {
        Grid {
            spawning: true,
            width,
            height,
            inhale_minimum,
            inhale_cap,
            movement_cost,
            divide_cost,
            explode_requirement,
            tiles: randomizing_vec(width, height),
        }
    }

    /// Replaces every tile by a blank one.
    pub fn randomize(&mut self)
        requires
            old(self).wf(),
        ensures
            final(self).wf(),
            final(self).same_frame(old(self)),
            final(self).tiles@ == blank_tiles(old(self).tiles@.len()),
    {
        self.tiles = randomizing_vec(self.width, self.height);
    }

    /// The grid has at least one column and one row and holds one tile for
    /// each coordinate.
    pub open spec fn wf(&self) -> bool {
        &&& self.width >= 1
        &&& self.height >= 1
        &&& self.tiles@.len() == self.width * self.height
        &&& storable(self.width as int, self.height as int)
    }

    /// Index of the tile that the coordinate `(x, y)` names once both parts
    /// are taken modulo the size of the grid.
    pub open spec fn slot(&self, x: int, y: int) -> int {
        spot(x, y, self.width as int, self.height as int)
    }

    /// Whether two grids agree in everything but their tiles.
    pub open spec fn same_frame(&self, other: &Grid) -> bool {
        &&& self.spawning == other.spawning
        &&& self.width == other.width
        &&& self.height == other.height
        &&& self.inhale_minimum == other.inhale_minimum
        &&& self.inhale_cap == other.inhale_cap
        &&& self.movement_cost == other.movement_cost
        &&& self.divide_cost == other.divide_cost
        &&& self.explode_requirement == other.explode_requirement
    }

    /// Every wrapped coordinate names a tile of the grid.
    pub proof fn lemma_slot_in_range(&self, x: int, y: int)
        requires
            self.wf(),
        ensures
            0 <= self.slot(x, y) < self.tiles@.len(),
            0 <= (y % (self.height as int)) * self.width <= self.tiles@.len() - self.width,
    {
        lemma_spot_in_range(x, y, self.width as int, self.height as int);
    }

    /// Row-major index of the tile at the wrapped coordinate `(x, y)`.
    pub fn index(&self, x: usize, y: usize) -> (i: usize)
        requires
            self.wf(),
        ensures
            i == self.slot(x as int, y as int),
            i < self.tiles@.len(),
    {
        proof {
            self.lemma_slot_in_range(x as int, y as int);
        }
        x % self.width + (y % self.height) * self.width
    }

    /// The tile at `(x, y)`; coordinates wrap around the edges.
    pub fn hex(&self, x: usize, y: usize) -> (h: &Hex)
        requires
            self.wf(),
        ensures
            *h == self.tiles@[self.slot(x as int, y as int)],
    {
        let i = self.index(x, y);
        &self.tiles[i]
    }

    /// Mutable access to the tile at `(x, y)`; coordinates wrap around the
    /// edges. Only that tile can change through the reference.
    pub fn hex_mut(&mut self, x: usize, y: usize) -> (h: &mut Hex)
        requires
            old(self).wf(),
        ensures
            *h == old(self).tiles@[old(self).slot(x as int, y as int)],
            final(self).tiles@ == old(self).tiles@.update(
                old(self).slot(x as int, y as int),
                *final(h),
            ),
            final(self).same_frame(old(self)),
            final(self).wf(),
    {
        let i = self.index(x, y);
        &mut self.tiles[i]
    }
}

} // verus!
