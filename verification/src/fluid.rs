//! The plan of the diffusion phase: which tiles exchange fluid, in which
//! regime and through which coefficient. The exchange itself is the host's.

use crate::grid::Grid;
use crate::tile::Hex;
use crate::topology::{
    lemma_even_height_closes, lemma_index_in_range, lemma_index_splits, lemma_neighbor_in_range,
    lemma_opposite, neighbor, neighbors, tile_index, Direction,
};
use vstd::prelude::*;

verus! {

/// The regime in which a tile takes up fluid from a neighbour.
#[derive(Clone, Copy, PartialEq, Eq, Debug)]
pub enum DiffusionType {
    /// The slower regime, towards a neighbour that holds an organism.
    FlatSignals,
    /// The ordinary regime, towards a vacant neighbour.
    DynSignals,
}

/// One exchange of the diffusion phase: a tile takes up fluid from the tile
/// with index `neighbor`, in the given regime, through the coefficient with
/// the given position.
#[derive(Clone, Copy, PartialEq, Eq, Debug)]
pub struct Exchange {
    pub neighbor: usize,
    pub regime: DiffusionType,
    pub coefficient: usize,
}

/// The exchange of tile `(x, y)` with its neighbour at position `i`: the
/// regime follows the neighbour's occupancy, and the coefficient is the one
/// three positions further on, which is the direction seen from the
/// neighbour.
pub open spec fn exchange(tiles: Seq<Hex>, width: int, height: int, x: int, y: int, i: int) -> Exchange {
    let n = neighbor(x, y, width, height, Direction::at(i));
    let k = tile_index(n.0, n.1, width);
    Exchange {
        neighbor: k as usize,
        regime: if tiles[k].cell is Some {
            DiffusionType::FlatSignals
        } else {
            DiffusionType::DynSignals
        },
        coefficient: ((i + 3) % 6) as usize,
    }
}

impl Grid {
    /// The six exchanges of the tile `(x, y)`, in canonical order of its
    /// neighbours; coordinates wrap around the edges.
    pub fn fluid_exchanges(&self, x: usize, y: usize) -> (plan: [Exchange; 6])
        requires
            self.wf(),
        ensures
            forall|i: int|
                0 <= i < 6 ==> #[trigger] plan[i] == exchange(
                    self.tiles@,
                    self.width as int,
                    self.height as int,
                    (x % self.width) as int,
                    (y % self.height) as int,
                    i,
                ),
            forall|i: int| 0 <= i < 6 ==> (#[trigger] plan[i]).neighbor < self.tiles@.len(),
    {
        let cx: usize = x % self.width;
        let cy: usize = y % self.height;
        let around = neighbors(cx, cy, self.width, self.height);
        let blank = Exchange { neighbor: 0, regime: DiffusionType::DynSignals, coefficient: 0 };
        let mut plan: [Exchange; 6] = [blank; 6];
        let mut i: usize = 0;
        while i < 6
            invariant
                self.wf(),
                i <= 6,
                forall|j: int|
                    0 <= j < 6 ==> (#[trigger] around[j].0 as int, around[j].1 as int) == neighbor(
                        cx as int,
                        cy as int,
                        self.width as int,
                        self.height as int,
                        Direction::at(j),
                    ),
                forall|j: int| 0 <= j < 6 ==> (#[trigger] around[j]).0 < self.width && around[j].1 < self.height,
                forall|j: int|
                    0 <= j < i ==> #[trigger] plan[j] == exchange(
                        self.tiles@,
                        self.width as int,
                        self.height as int,
                        cx as int,
                        cy as int,
                        j,
                    ),
                forall|j: int| 0 <= j < i ==> (#[trigger] plan[j]).neighbor < self.tiles@.len(),
            decreases 6 - i,
        {
            let n = around[i];
            proof {
                lemma_index_in_range(n.0 as int, n.1 as int, self.width as int, self.height as int);
            }
            let k = self.index(n.0, n.1);
            let regime = if self.tiles[k].cell.is_some() {
                DiffusionType::FlatSignals
            } else {
                DiffusionType::DynSignals
            };
            plan[i] = Exchange { neighbor: k, regime, coefficient: (i + 3) % 6 };
            i = i + 1;
        }
        plan
    }

    /// The exchanges of every tile, by tile index.
    pub fn cycle_fluids(&self) -> (plans: Vec<[Exchange; 6]>)
        requires
            self.wf(),
        ensures
            plans@.len() == self.tiles@.len(),
            forall|k: int, i: int|
                0 <= k < plans@.len() && 0 <= i < 6 ==> #[trigger] plans@[k][i] == exchange(
                    self.tiles@,
                    self.width as int,
                    self.height as int,
                    k % (self.width as int),
                    k / (self.width as int),
                    i,
                ),
            forall|k: int, i: int|
                0 <= k < plans@.len() && 0 <= i < 6 ==> (#[trigger] plans@[k][i]).neighbor
                    < self.tiles@.len(),
    {
        let mut plans: Vec<[Exchange; 6]> = Vec::new();
        let mut k: usize = 0;
        while k < self.tiles.len()
            invariant
                self.wf(),
                k <= self.tiles@.len(),
                plans@.len() == k,
                forall|j: int, i: int|
                    0 <= j < k && 0 <= i < 6 ==> #[trigger] plans@[j][i] == exchange(
                        self.tiles@,
                        self.width as int,
                        self.height as int,
                        j % (self.width as int),
                        j / (self.width as int),
                        i,
                    ),
                forall|j: int, i: int|
                    0 <= j < k && 0 <= i < 6 ==> (#[trigger] plans@[j][i]).neighbor
                        < self.tiles@.len(),
            decreases self.tiles@.len() - k,
        {
            proof {
                lemma_index_splits(k as int, self.width as int, self.height as int);
            }
            let plan = self.fluid_exchanges(k % self.width, k / self.width);
            plans.push(plan);
            k = k + 1;
        }
        plans
    }
}

/// Exchanges come in pairs. On a grid of even height, what a tile takes
/// from its neighbour at position `i` is matched by what that neighbour
/// takes from the tile, three positions further on: the coefficient of the
/// one exchange is the position of the other. Fluid that leaves one tile
/// has one tile to arrive at.
pub proof fn lemma_exchanges_pair_up(
    tiles: Seq<Hex>,
    width: int,
    height: int,
    x: int,
    y: int,
    i: int,
)
    requires
        1 <= width <= usize::MAX,
        1 <= height <= usize::MAX,
        width * height <= usize::MAX,
        height % 2 == 0,
        0 <= x < width,
        0 <= y < height,
        0 <= i < 6,
    ensures
        ({
            let n = neighbor(x, y, width, height, Direction::at(i));
            let there = exchange(tiles, width, height, x, y, i);
            let back = exchange(tiles, width, height, n.0, n.1, there.coefficient as int);
            &&& there.neighbor == tile_index(n.0, n.1, width)
            &&& back.neighbor == tile_index(x, y, width)
            &&& back.coefficient == i
        }),
{
    let d = Direction::at(i);
    let n = neighbor(x, y, width, height, d);
    lemma_opposite(d);
    lemma_neighbor_in_range(x, y, width, height, d);
    lemma_even_height_closes(x, y, width, height, d);
    lemma_index_in_range(n.0, n.1, width, height);
    lemma_index_in_range(x, y, width, height);
    assert(Direction::at((i + 3) % 6) == d.opposite());
}

/// On a grid without organisms every exchange runs in the ordinary regime.
pub proof fn lemma_vacant_grid_is_dynamic(
    tiles: Seq<Hex>,
    width: int,
    height: int,
    x: int,
    y: int,
    i: int,
)
    requires
        width >= 1,
        height >= 1,
        tiles.len() == width * height,
        forall|k: int| 0 <= k < tiles.len() ==> (#[trigger] tiles[k]).cell is None,
    ensures
        exchange(tiles, width, height, x, y, i).regime == DiffusionType::DynSignals,
{
    let n = neighbor(x, y, width, height, Direction::at(i));
    lemma_neighbor_in_range(x, y, width, height, Direction::at(i));
    lemma_index_in_range(n.0, n.1, width, height);
}

} // verus!
