//! The decision phase: what an organism gets to see of its surroundings,
//! and where its decision is kept.

use crate::grid::Grid;
use crate::pass::coherent;
use crate::tile::{Decision, Hex};
use crate::topology::{lemma_index_in_range, neighbor, neighbors, tile_index, Direction};
use vstd::prelude::*;

verus! {

/// The tiles after the decision phase: an occupied tile holds the decision
/// made for it, a vacant tile holds none.
pub open spec fn all_decided(tiles: Seq<Hex>, decisions: Seq<Option<Decision>>) -> Seq<Hex> {
    Seq::new(
        tiles.len(),
        |k: int|
            Hex {
                cell: tiles[k].cell,
                decision: if tiles[k].cell is Some {
                    decisions[k]
                } else {
                    None
                },
            },
    )
}

/// Index of the neighbour at position `i` of the tile `(x, y)`.
pub open spec fn neighbor_slot(width: int, height: int, x: int, y: int, i: int) -> int {
    let n = neighbor(x, y, width, height, Direction::at(i));
    tile_index(n.0, n.1, width)
}

impl Grid {
    /// The index of the tile `(x, y)` and the indices of its six neighbours
    /// in canonical order; coordinates wrap around the edges.
    pub fn hex_and_neighbors(&self, x: usize, y: usize) -> (r: (usize, [usize; 6]))
        requires
            self.wf(),
        ensures
            r.0 == self.slot(x as int, y as int),
            r.0 < self.tiles@.len(),
            forall|i: int|
                0 <= i < 6 ==> #[trigger] r.1[i] == neighbor_slot(
                    self.width as int,
                    self.height as int,
                    (x % self.width) as int,
                    (y % self.height) as int,
                    i,
                ),
            forall|i: int| 0 <= i < 6 ==> #[trigger] r.1[i] < self.tiles@.len(),
    {
        let cx: usize = x % self.width;
        let cy: usize = y % self.height;
        let around = neighbors(cx, cy, self.width, self.height);
        let mut slots: [usize; 6] = [0; 6];
        let mut i: usize = 0;
        while i < 6
            invariant
                self.wf(),
                i <= 6,
                forall|j: int|
                    0 <= j < 6 ==> (#[trigger] around[j].0 as int, around[j].1 as int) == neighbor(
                        cx as int,
                        cy as int,
                        self.width as int,
                        self.height as int,
                        Direction::at(j),
                    ),
                forall|j: int|
                    0 <= j < 6 ==> (#[trigger] around[j]).0 < self.width && around[j].1
                        < self.height,
                forall|j: int|
                    0 <= j < i ==> #[trigger] slots[j] == neighbor_slot(
                        self.width as int,
                        self.height as int,
                        cx as int,
                        cy as int,
                        j,
                    ),
                forall|j: int| 0 <= j < i ==> #[trigger] slots[j] < self.tiles@.len(),
            decreases 6 - i,
        {
            let n = around[i];
            proof {
                lemma_index_in_range(n.0 as int, n.1 as int, self.width as int, self.height as int);
            }
            slots[i] = self.index(n.0, n.1);
            i = i + 1;
        }
        (self.index(x, y), slots)
    }

    /// For each of the six neighbours of the tile `(x, y)`, in canonical
    /// order, whether it holds an organism; coordinates wrap around the
    /// edges.
    pub fn neighbor_presents(&self, x: usize, y: usize) -> (present: [bool; 6])
        requires
            self.wf(),
        ensures
            forall|i: int|
                0 <= i < 6 ==> #[trigger] present[i] == (self.tiles@[neighbor_slot(
                    self.width as int,
                    self.height as int,
                    (x % self.width) as int,
                    (y % self.height) as int,
                    i,
                )].cell is Some),
    {
        let around = self.hex_and_neighbors(x, y).1;
        let mut present: [bool; 6] = [false; 6];
        let mut i: usize = 0;
        while i < 6
            invariant
                i <= 6,
                forall|j: int| 0 <= j < 6 ==> #[trigger] around[j] < self.tiles@.len(),
                forall|j: int|
                    0 <= j < i ==> #[trigger] present[j] == (self.tiles@[around[j] as int].cell
                        is Some),
            decreases 6 - i,
        {
            present[i] = self.tiles[around[i]].cell.is_some();
            i = i + 1;
        }
        present
    }

    /// Stores the decisions of one tick, handed in by tile index: every
    /// occupied tile gets the decision made for it, and every vacant tile
    /// gets none, whatever was handed in for it.
    pub fn cycle_cells(&mut self, decisions: &Vec<Option<Decision>>)
        requires
            decisions@.len() == old(self).tiles@.len(),
        ensures
            final(self).same_frame(old(self)),
            final(self).tiles@ == all_decided(old(self).tiles@, decisions@),
            coherent(final(self).tiles@),
            old(self).wf() ==> final(self).wf(),
    {
        let mut k: usize = 0;
        while k < self.tiles.len()
            invariant
                self.same_frame(old(self)),
                self.tiles@.len() == old(self).tiles@.len(),
                decisions@.len() == self.tiles@.len(),
                k <= self.tiles@.len(),
                forall|j: int|
                    0 <= j < k ==> self.tiles@[j] == all_decided(old(self).tiles@, decisions@)[j],
                forall|j: int| k <= j < self.tiles@.len() ==> self.tiles@[j] == old(self).tiles@[j],
            decreases self.tiles@.len() - k,
        {
            let cell = self.tiles[k].cell;
            let decision = if cell.is_some() {
                decisions[k]
            } else {
                None
            };
            self.tiles[k] = Hex { cell, decision };
            k = k + 1;
        }
        assert(self.tiles@ =~= all_decided(old(self).tiles@, decisions@));
    }
}

} // verus!
