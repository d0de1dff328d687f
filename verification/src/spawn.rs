//! Placing new organisms on vacant tiles.

use crate::grid::Grid;
use crate::tile::{Cell, Hex};
use rand::{Isaac64Rng, Rng};
use vstd::prelude::*;

verus! {

/// The generator type of the `rand` crate that drives a simulation. Verus
/// sees nothing of its state.
#[verifier::external_type_specification]
#[verifier::external_body]
pub struct ExIsaac64Rng(rand::Isaac64Rng);

/// A number below `bound`, drawn from the generator.
///
/// Trusted: the body calls `Rng::gen_range(0, bound)`, which panics unless
/// the lower end is below the upper one and otherwise returns the lower end
/// plus a remainder modulo the width of the range. Nothing else is claimed
/// of the number, nor of the generator afterwards.
#[verifier::external_body]
fn draw_below(rng: &mut Isaac64Rng, bound: usize) -> (r: usize)
    requires
        bound > 0,
    ensures
        r < bound,
{
    rng.gen_range(0, bound)
}

/// The tiles after the first `count` of the newcomers were put, one after
/// the other, on the tiles drawn for them; a newcomer whose tile is taken
/// is dropped.
pub open spec fn all_settled(tiles: Seq<Hex>, newcomers: Seq<(usize, Cell)>, count: int) -> Seq<
    Hex,
>
    decreases count,
{
    if count <= 0 {
        tiles
    } else {
        Grid::settled(
            all_settled(tiles, newcomers, count - 1),
            newcomers[count - 1].0 as int,
            newcomers[count - 1].1,
        )
    }
}

impl Grid {
    /// The tile with index `tile` if it exists and has no occupant, and
    /// nothing otherwise.
    pub open spec fn vacancy_at(&self, tile: int) -> Option<usize> {
        if 0 <= tile < self.tiles@.len() && self.tiles@[tile].cell is None {
            Some(tile as usize)
        } else {
            None
        }
    }

    /// Answers a drawn tile index: the index itself where that tile is
    /// vacant, and `None` where it is occupied or outside the grid.
    pub fn vacancy(&self, tile: usize) -> (site: Option<usize>)
        ensures
            site == self.vacancy_at(tile as int),
    {
        if tile < self.tiles.len() && self.tiles[tile].cell.is_none() {
            Some(tile)
        } else {
            None
        }
    }

    /// Draws one tile of the grid and offers it for a newcomer if it is
    /// vacant. Whatever is drawn, the answer is the one that `vacancy` gives
    /// for a tile of the grid: a site that is offered is a vacant tile, a
    /// grid without organisms always offers one, and a full grid never
    /// does.
    pub fn spawn_site(&self, rng: &mut Isaac64Rng) -> (site: Option<usize>)
        requires
            self.wf(),
        ensures
            exists|tile: int|
                0 <= tile < self.tiles@.len() && site == #[trigger] self.vacancy_at(tile),
            site matches Some(t) ==> self.vacancy_at(t as int) == Some(t),
    {
        proof {
            self.lemma_slot_in_range(0, 0);
        }
        let tile = draw_below(rng, self.tiles.len());
        let site = self.vacancy(tile);
        assert(0 <= tile < self.tiles@.len() && site == self.vacancy_at(tile as int));
        site
    }

    /// The tiles after `newcomer` was put on tile `tile`: unchanged where
    /// that tile is occupied or outside the grid.
    pub open spec fn settled(tiles: Seq<Hex>, tile: int, newcomer: Cell) -> Seq<Hex> {
        if 0 <= tile < tiles.len() && tiles[tile].cell is None {
            tiles.update(tile, Hex { cell: Some(newcomer), decision: tiles[tile].decision })
        } else {
            tiles
        }
    }

    /// Puts `newcomer` on the tile with index `tile` if that tile is vacant,
    /// and says whether it did. An occupied tile keeps its occupant.
    pub fn settle(&mut self, tile: usize, newcomer: Cell) -> (placed: bool)
        ensures
            placed == (old(self).vacancy_at(tile as int) is Some),
            final(self).tiles@ == Grid::settled(old(self).tiles@, tile as int, newcomer),
            final(self).same_frame(old(self)),
            old(self).wf() ==> final(self).wf(),
    {
        if tile < self.tiles.len() && self.tiles[tile].cell.is_none() {
            let decision = self.tiles[tile].decision;
            self.tiles[tile] = Hex { cell: Some(newcomer), decision };
            true
        } else {
            false
        }
    }

    /// The spawn phase with the draws already made: puts each newcomer on
    /// the tile drawn for it, in order, and drops those whose tile is
    /// taken.
    pub fn cycle_spawn(&mut self, spawned: &Vec<(usize, Cell)>)
        ensures
            final(self).same_frame(old(self)),
            final(self).tiles@ == all_settled(old(self).tiles@, spawned@, spawned@.len() as int),
            old(self).wf() ==> final(self).wf(),
    {
        let mut i: usize = 0;
        while i < spawned.len()
            invariant
                self.same_frame(old(self)),
                old(self).wf() ==> self.wf(),
                i <= spawned@.len(),
                self.tiles@ == all_settled(old(self).tiles@, spawned@, i as int),
            decreases spawned@.len() - i,
        {
            let newcomer = spawned[i];
            self.settle(newcomer.0, newcomer.1);
            i = i + 1;
        }
    }
}

} // verus!
