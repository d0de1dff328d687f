//! The pass over the tiles as a whole, and what holds of it.
//!
//! A host takes the pass by calling `Grid::advance` again and again and by
//! settling the offspring that a turn asks for before it goes on. The
//! functions here describe the tiles that this leaves, whatever the
//! offspring are.

use crate::grid::Grid;
use crate::resolve::{
    advanced, all_gathered, all_marked, applied, claim, gathered, scanned, spent, turn_tile,
    Attempts, Claim, Delta, Mate, Outcome,
};
use crate::tile::{Cell, Decision, Hex};
use crate::topology::{
    lemma_index_in_range, lemma_neighbor_in_range, lemma_step_and_back, lemma_step_injective, lemma_index_injective, lemma_index_splits, lemma_opposite,
    lemma_spot_in_range, neighbor, spot, tile_index, Direction,
};
use vstd::prelude::*;

verus! {

/// What a pass is taken with: the size of the grid, the two costs, the
/// attempts recorded for every tile, and for every turn the offspring that
/// the host supplies should that turn ask for one.
pub struct Setting {
    pub width: int,
    pub height: int,
    pub movement_cost: int,
    pub divide_cost: int,
    pub deltas: Seq<Delta>,
    pub brood: Seq<Cell>,
}

impl Setting {
    /// The grid has a column and a row, and there is a record for every
    /// tile.
    pub open spec fn valid(self) -> bool {
        &&& self.width >= 1
        &&& self.height >= 1
        &&& self.deltas.len() == self.width * self.height
    }

    /// Number of tiles, which is the number of turns.
    pub open spec fn count(self) -> int {
        self.width * self.height
    }

    /// Index of the tile whose turn is the `turn`-th.
    pub open spec fn tile_of(self, turn: int) -> int {
        tile_index(turn / self.height, turn % self.height, self.width)
    }

    /// The turn of the tile `(x, y)`.
    pub open spec fn turn_of(self, x: int, y: int) -> int {
        x * self.height + y
    }

    /// Tiles and outcome of the `turn`-th turn, before any offspring is
    /// settled.
    pub open spec fn step(self, tiles: Seq<Hex>, turn: int) -> (Seq<Hex>, Outcome) {
        let at = turn_tile(turn, self.height);
        applied(
            tiles,
            self.width,
            self.height,
            self.movement_cost,
            self.divide_cost,
            at.0,
            at.1,
            self.deltas[self.tile_of(turn)],
        )
    }

    /// The tiles after the `turn`-th turn, the offspring settled where the
    /// turn asked for one.
    pub open spec fn turn_taken(self, tiles: Seq<Hex>, turn: int) -> Seq<Hex> {
        let step = self.step(tiles, turn);
        if step.1 is Divide || step.1 is Mate {
            Grid::settled(step.0, self.tile_of(turn), self.brood[turn])
        } else {
            step.0
        }
    }

    /// The tiles after the turns from `from` up to, but without, `to`.
    pub open spec fn passed(self, tiles: Seq<Hex>, from: int, to: int) -> Seq<Hex>
        decreases to - from,
    {
        if to <= from {
            tiles
        } else {
            self.turn_taken(self.passed(tiles, from, to - 1), to - 1)
        }
    }

    /// The tiles after the whole pass.
    pub open spec fn resolved(self, tiles: Seq<Hex>) -> Seq<Hex> {
        self.passed(tiles, 0, self.count())
    }

    /// Index of the tile that the single movement attempt or the single
    /// attempt to spawn recorded for tile `k` comes from, if there is one.
    pub open spec fn source_of(self, k: int) -> Option<int> {
        match self.deltas[k].movement_attempts {
            Attempts::One(from) => Some(spot(from.0 as int, from.1 as int, self.width, self.height)),
            _ => match self.deltas[k].mate_attempts {
                Attempts::One(attempt) => Some(
                    spot(
                        attempt.source.0 as int,
                        attempt.source.1 as int,
                        self.width,
                        self.height,
                    ),
                ),
                _ => None,
            },
        }
    }
}

/// The outcomes of the turns from the first up to, but without, `to`, by
/// turn.
pub open spec fn outcomes(s: Setting, tiles: Seq<Hex>, to: int) -> Seq<Outcome> {
    Seq::new(to as nat, |turn: int| s.step(s.passed(tiles, 0, turn), turn).1)
}

impl Grid {
    /// The setting of a pass over this grid.
    pub open spec fn setting(&self, deltas: Seq<Delta>, brood: Seq<Cell>) -> Setting {
        Setting {
            width: self.width as int,
            height: self.height as int,
            movement_cost: self.movement_cost as int,
            divide_cost: self.divide_cost as int,
            deltas,
            brood,
        }
    }

    /// Takes the whole pass with offspring that is known beforehand:
    /// `brood` holds, by turn, the offspring to settle should that turn ask
    /// for one. The outcomes of all turns are handed back, by turn.
    pub fn resolve(&mut self, deltas: &Vec<Delta>, brood: &Vec<Cell>) -> (log: Vec<Outcome>)
        requires
            old(self).wf(),
            deltas@.len() == old(self).tiles@.len(),
            brood@.len() == old(self).tiles@.len(),
        ensures
            final(self).wf(),
            final(self).same_frame(old(self)),
            final(self).tiles@ == old(self).setting(deltas@, brood@).resolved(old(self).tiles@),
            log@ == outcomes(
                old(self).setting(deltas@, brood@),
                old(self).tiles@,
                old(self).tiles@.len() as int,
            ),
    {
        let ghost s = self.setting(deltas@, brood@);
        let ghost start = self.tiles@;
        let mut log: Vec<Outcome> = Vec::new();
        let mut turn: usize = 0;
        while turn < self.tiles.len()
            invariant
                self.wf(),
                self.same_frame(old(self)),
                s == old(self).setting(deltas@, brood@),
                start == old(self).tiles@,
                s.valid(),
                brood@.len() == self.tiles@.len(),
                turn <= self.tiles@.len(),
                self.tiles@ == s.passed(start, 0, turn as int),
                log@ == outcomes(s, start, turn as int),
            decreases self.tiles@.len() - turn,
        {
            let x: usize = turn / self.height;
            let y: usize = turn % self.height;
            proof {
                lemma_turns_and_tiles(s, turn as int);
                lemma_index_in_range(
                    x as int,
                    y as int,
                    self.width as int,
                    self.height as int,
                );
            }
            let t = self.index(x, y);
            let outcome = self.apply_tile(x, y, deltas[t]);
            match outcome {
                Outcome::Divide { .. } | Outcome::Mate { .. } => {
                    self.settle(t, brood[turn]);
                },
                _ => {},
            }
            log.push(outcome);
            turn = turn + 1;
            assert(log@ =~= outcomes(s, start, turn as int));
        }
        log
    }
}

/// Every turn belongs to one tile, and every tile has its turn.
proof fn lemma_turns_and_tiles(s: Setting, turn: int)
    requires
        s.valid(),
        0 <= turn < s.count(),
    ensures
        0 <= turn / s.height < s.width,
        0 <= turn % s.height < s.height,
        0 <= s.tile_of(turn) < s.count(),
        s.turn_of(turn / s.height, turn % s.height) == turn,
        s.tile_of(turn) == spot(turn / s.height, turn % s.height, s.width, s.height),
{
    assert(s.width * s.height == s.height * s.width) by (nonlinear_arith);
    lemma_index_splits(turn, s.height, s.width);
    let x = turn / s.height;
    let y = turn % s.height;
    lemma_spot_in_range(x, y, s.width, s.height);
    vstd::arithmetic::div_mod::lemma_small_mod(x as nat, s.width as nat);
    vstd::arithmetic::div_mod::lemma_small_mod(y as nat, s.height as nat);
    assert(x * s.height == y * 0 + s.height * x) by (nonlinear_arith);
}

/// The turn of a tile is a turn of the pass, and it is the turn of that
/// tile.
proof fn lemma_turn_of_tile(s: Setting, x: int, y: int)
    requires
        s.valid(),
        0 <= x < s.width,
        0 <= y < s.height,
    ensures
        0 <= s.turn_of(x, y) < s.count(),
        s.turn_of(x, y) / s.height == x,
        s.turn_of(x, y) % s.height == y,
        s.tile_of(s.turn_of(x, y)) == tile_index(x, y, s.width),
        0 <= tile_index(x, y, s.width) < s.count(),
{
    lemma_index_in_range(x, y, s.width, s.height);
    assert(0 <= x * s.height <= (s.width - 1) * s.height) by (nonlinear_arith)
        requires
            0 <= x <= s.width - 1,
            s.height >= 1,
    ;
    assert((s.width - 1) * s.height + s.height == s.width * s.height) by (nonlinear_arith);
    vstd::arithmetic::div_mod::lemma_fundamental_div_mod_converse(
        x * s.height + y,
        s.height,
        x,
        y,
    );
}

/// A turn changes the occupant of no tile but its own and the one its
/// single recorded attempt comes from, and keeps the number of tiles.
proof fn lemma_turn_frame(s: Setting, tiles: Seq<Hex>, turn: int, j: int)
    requires
        s.valid(),
        tiles.len() == s.count(),
        0 <= turn < s.count(),
        0 <= j < s.count(),
        j != s.tile_of(turn),
        s.source_of(s.tile_of(turn)) != Some(j),
    ensures
        s.turn_taken(tiles, turn).len() == tiles.len(),
        s.turn_taken(tiles, turn)[j].cell == tiles[j].cell,
{
    lemma_turns_and_tiles(s, turn);
    let k = s.tile_of(turn);
    match s.deltas[k].movement_attempts {
        Attempts::One(from) => {
            lemma_spot_in_range(from.0 as int, from.1 as int, s.width, s.height);
        },
        _ => {},
    }
    match s.deltas[k].mate_attempts {
        Attempts::One(attempt) => {
            lemma_spot_in_range(attempt.source.0 as int, attempt.source.1 as int, s.width, s.height);
            lemma_spot_in_range(attempt.mate.0 as int, attempt.mate.1 as int, s.width, s.height);
        },
        _ => {},
    }
}

/// A turn keeps the number of tiles.
proof fn lemma_turn_keeps_count(s: Setting, tiles: Seq<Hex>, turn: int)
    requires
        s.valid(),
        tiles.len() == s.count(),
        0 <= turn < s.count(),
    ensures
        s.turn_taken(tiles, turn).len() == tiles.len(),
{
    lemma_turns_and_tiles(s, turn);
    let k = s.tile_of(turn);
    match s.deltas[k].movement_attempts {
        Attempts::One(from) => {
            lemma_spot_in_range(from.0 as int, from.1 as int, s.width, s.height);
        },
        _ => {},
    }
    match s.deltas[k].mate_attempts {
        Attempts::One(attempt) => {
            lemma_spot_in_range(attempt.source.0 as int, attempt.source.1 as int, s.width, s.height);
            lemma_spot_in_range(attempt.mate.0 as int, attempt.mate.1 as int, s.width, s.height);
        },
        _ => {},
    }
}

/// A turn leaves a vacant tile vacant unless it is the turn of that tile.
proof fn lemma_turn_keeps_vacant(s: Setting, tiles: Seq<Hex>, turn: int, j: int)
    requires
        s.valid(),
        tiles.len() == s.count(),
        0 <= turn < s.count(),
        0 <= j < s.count(),
        j != s.tile_of(turn),
        tiles[j].cell is None,
    ensures
        s.turn_taken(tiles, turn)[j].cell is None,
{
    lemma_turns_and_tiles(s, turn);
    let k = s.tile_of(turn);
    match s.deltas[k].movement_attempts {
        Attempts::One(from) => {
            lemma_spot_in_range(from.0 as int, from.1 as int, s.width, s.height);
        },
        _ => {},
    }
    match s.deltas[k].mate_attempts {
        Attempts::One(attempt) => {
            lemma_spot_in_range(attempt.source.0 as int, attempt.source.1 as int, s.width, s.height);
            lemma_spot_in_range(attempt.mate.0 as int, attempt.mate.1 as int, s.width, s.height);
        },
        _ => {},
    }
}

/// The turn of a tile without recorded attempts changes no occupant.
proof fn lemma_turn_without_record(s: Setting, tiles: Seq<Hex>, turn: int, j: int)
    requires
        s.valid(),
        tiles.len() == s.count(),
        0 <= turn < s.count(),
        0 <= j < s.count(),
        s.deltas[s.tile_of(turn)] == Delta::empty(),
    ensures
        s.turn_taken(tiles, turn)[j].cell == tiles[j].cell,
{
    lemma_turns_and_tiles(s, turn);
}

/// The pass keeps the number of tiles.
pub proof fn lemma_pass_keeps_count(s: Setting, tiles: Seq<Hex>, from: int, to: int)
    requires
        s.valid(),
        tiles.len() == s.count(),
        0 <= from,
        to <= s.count(),
    ensures
        s.passed(tiles, from, to).len() == tiles.len(),
    decreases to - from,
{
    if from < to {
        lemma_pass_keeps_count(s, tiles, from, to - 1);
        lemma_turn_keeps_count(s, s.passed(tiles, from, to - 1), to - 1);
    }
}

/// A pass in two parts is the pass as a whole.
pub proof fn lemma_pass_splits(s: Setting, tiles: Seq<Hex>, from: int, mid: int, to: int)
    requires
        from <= mid <= to,
    ensures
        s.passed(tiles, from, to) == s.passed(s.passed(tiles, from, mid), mid, to),
    decreases to - mid,
{
    if mid < to {
        lemma_pass_splits(s, tiles, from, mid, to - 1);
    }
}

/// The turn of a tile leads back to the tile, and to no other.
proof fn lemma_one_turn_each(s: Setting, turn: int, x: int, y: int)
    requires
        s.valid(),
        0 <= turn < s.count(),
        0 <= x < s.width,
        0 <= y < s.height,
    ensures
        s.tile_of(turn) == tile_index(x, y, s.width) <==> turn == s.turn_of(x, y),
{
    lemma_turns_and_tiles(s, turn);
    lemma_turn_of_tile(s, x, y);
    if s.tile_of(turn) == tile_index(x, y, s.width) {
        lemma_index_injective(turn / s.height, turn % s.height, x, y, s.width);
    }
}

/// An organism is where it was and as it was after a run of turns in which
/// no recorded attempt draws on it and its own tile, if its turn comes, has
/// no recorded attempts.
pub proof fn lemma_kept(s: Setting, tiles: Seq<Hex>, j: int, from: int, to: int)
    requires
        s.valid(),
        tiles.len() == s.count(),
        0 <= j < s.count(),
        0 <= from <= to <= s.count(),
        forall|turn: int|
            from <= turn < to ==> s.source_of(#[trigger] s.tile_of(turn)) != Some(j) && (s.tile_of(
                turn,
            ) == j ==> s.deltas[j] == Delta::empty()),
    ensures
        s.passed(tiles, from, to)[j].cell == tiles[j].cell,
    decreases to - from,
{
    if from < to {
        lemma_kept(s, tiles, j, from, to - 1);
        lemma_pass_keeps_count(s, tiles, from, to - 1);
        lemma_turns_and_tiles(s, to - 1);
        let before = s.passed(tiles, from, to - 1);
        if s.tile_of(to - 1) == j {
            lemma_turn_without_record(s, before, to - 1, j);
        } else {
            lemma_turn_frame(s, before, to - 1, j);
        }
    }
}

/// A vacant tile is vacant after a run of turns, unless its own turn is
/// among them and exactly one attempt of a kind is recorded for it.
pub proof fn lemma_stays_vacant(s: Setting, tiles: Seq<Hex>, j: int, from: int, to: int)
    requires
        s.valid(),
        tiles.len() == s.count(),
        0 <= j < s.count(),
        0 <= from <= to <= s.count(),
        tiles[j].cell is None,
        forall|turn: int|
            from <= turn < to && #[trigger] s.tile_of(turn) == j ==> !(
            s.deltas[j].movement_attempts is One) && !(s.deltas[j].mate_attempts is One),
    ensures
        s.passed(tiles, from, to)[j].cell is None,
    decreases to - from,
{
    if from < to {
        lemma_stays_vacant(s, tiles, j, from, to - 1);
        lemma_pass_keeps_count(s, tiles, from, to - 1);
        lemma_turns_and_tiles(s, to - 1);
        let before = s.passed(tiles, from, to - 1);
        if s.tile_of(to - 1) != j {
            lemma_turn_keeps_vacant(s, before, to - 1, j);
        }
    }
}

/// Movement, stated of the recorded attempts. A vacant tile with exactly
/// one movement attempt on record, from an organism that no other record
/// draws on, holds that organism after the pass, its inhale lowered by the
/// movement cost and not below zero; the tile the organism came from is
/// vacant.
pub proof fn lemma_single_mover_arrives(
    s: Setting,
    tiles: Seq<Hex>,
    x: int,
    y: int,
    from: (usize, usize),
)
    requires
        s.valid(),
        tiles.len() == s.count(),
        0 <= x < s.width,
        0 <= y < s.height,
        from.0 < s.width,
        from.1 < s.height,
        s.deltas[tile_index(x, y, s.width)].movement_attempts == Attempts::One(from),
        tiles[tile_index(x, y, s.width)].cell is None,
        tiles[tile_index(from.0 as int, from.1 as int, s.width)].cell is Some,
        s.deltas[tile_index(from.0 as int, from.1 as int, s.width)] == Delta::empty(),
        forall|k: int|
            0 <= k < s.count() && k != tile_index(x, y, s.width) ==> #[trigger] s.source_of(k)
                != Some(tile_index(from.0 as int, from.1 as int, s.width)),
        forall|k: int|
            0 <= k < s.count() ==> #[trigger] s.source_of(k) != Some(tile_index(x, y, s.width)),
    ensures
        ({
            let mover = tiles[tile_index(from.0 as int, from.1 as int, s.width)].cell->0;
            let after = s.resolved(tiles);
            &&& after[tile_index(x, y, s.width)].cell == Some(
                Cell { inhale: spent(mover.inhale, s.movement_cost), suicide: mover.suicide },
            )
            &&& after[tile_index(from.0 as int, from.1 as int, s.width)].cell is None
        }),
{
    let t = tile_index(x, y, s.width);
    let f = tile_index(from.0 as int, from.1 as int, s.width);
    let turn = s.turn_of(x, y);
    lemma_turn_of_tile(s, x, y);
    lemma_index_in_range(from.0 as int, from.1 as int, s.width, s.height);
    assert forall|u: int| 0 <= u < s.count() && u != turn implies #[trigger] s.tile_of(u) != t
        && 0 <= s.tile_of(u) < s.count() by {
        lemma_one_turn_each(s, u, x, y);
        lemma_turns_and_tiles(s, u);
    }
    let before = s.passed(tiles, 0, turn);
    lemma_pass_keeps_count(s, tiles, 0, turn);
    lemma_kept(s, tiles, f, 0, turn);
    lemma_stays_vacant(s, tiles, t, 0, turn);
    let arrived = s.passed(tiles, 0, turn + 1);
    assert(arrived == s.turn_taken(before, turn));
    lemma_turn_keeps_count(s, before, turn);
    lemma_pass_splits(s, tiles, 0, turn + 1, s.count());
    lemma_kept(s, arrived, t, turn + 1, s.count());
    lemma_stays_vacant(s, arrived, f, turn + 1, s.count());
}

/// Cancellation, stated of the recorded attempts. A vacant tile with two
/// movement attempts on record, and not exactly one attempt to spawn, is
/// vacant after the pass, and each of the two organisms, if no record draws
/// on it, is where it was and as it was.
pub proof fn lemma_collision_cancels(
    s: Setting,
    tiles: Seq<Hex>,
    x: int,
    y: int,
    first: (usize, usize),
    second: (usize, usize),
)
    requires
        s.valid(),
        tiles.len() == s.count(),
        0 <= x < s.width,
        0 <= y < s.height,
        first.0 < s.width,
        first.1 < s.height,
        second.0 < s.width,
        second.1 < s.height,
        s.deltas[tile_index(x, y, s.width)].movement_attempts == Attempts::Two(first, second),
        !(s.deltas[tile_index(x, y, s.width)].mate_attempts is One),
        tiles[tile_index(x, y, s.width)].cell is None,
        s.deltas[tile_index(first.0 as int, first.1 as int, s.width)] == Delta::empty(),
        s.deltas[tile_index(second.0 as int, second.1 as int, s.width)] == Delta::empty(),
        forall|k: int|
            0 <= k < s.count() ==> #[trigger] s.source_of(k) != Some(
                tile_index(first.0 as int, first.1 as int, s.width),
            ) && s.source_of(k) != Some(tile_index(second.0 as int, second.1 as int, s.width)),
    ensures
        ({
            let after = s.resolved(tiles);
            let a = tile_index(first.0 as int, first.1 as int, s.width);
            let b = tile_index(second.0 as int, second.1 as int, s.width);
            &&& after[tile_index(x, y, s.width)].cell is None
            &&& after[a].cell == tiles[a].cell
            &&& after[b].cell == tiles[b].cell
        }),
{
    let t = tile_index(x, y, s.width);
    lemma_index_in_range(x, y, s.width, s.height);
    lemma_index_in_range(first.0 as int, first.1 as int, s.width, s.height);
    lemma_index_in_range(second.0 as int, second.1 as int, s.width, s.height);
    assert forall|u: int| 0 <= u < s.count() implies 0 <= #[trigger] s.tile_of(u) < s.count() by {
        lemma_turns_and_tiles(s, u);
    }
    lemma_stays_vacant(s, tiles, t, 0, s.count());
    lemma_kept(s, tiles, tile_index(first.0 as int, first.1 as int, s.width), 0, s.count());
    lemma_kept(s, tiles, tile_index(second.0 as int, second.1 as int, s.width), 0, s.count());
}

/// A turn consumes the decision of its own tile and leaves every other
/// decision as it is.
proof fn lemma_turn_decisions(s: Setting, tiles: Seq<Hex>, turn: int, j: int)
    requires
        s.valid(),
        tiles.len() == s.count(),
        0 <= turn < s.count(),
        0 <= j < s.count(),
    ensures
        s.turn_taken(tiles, turn)[j].decision == if j == s.tile_of(turn) {
            None
        } else {
            tiles[j].decision
        },
{
    lemma_turns_and_tiles(s, turn);
    let k = s.tile_of(turn);
    match s.deltas[k].movement_attempts {
        Attempts::One(from) => {
            lemma_spot_in_range(from.0 as int, from.1 as int, s.width, s.height);
        },
        _ => {},
    }
    match s.deltas[k].mate_attempts {
        Attempts::One(attempt) => {
            lemma_spot_in_range(attempt.source.0 as int, attempt.source.1 as int, s.width, s.height);
            lemma_spot_in_range(attempt.mate.0 as int, attempt.mate.1 as int, s.width, s.height);
        },
        _ => {},
    }
}

/// After `turns` turns the tiles that had their turn hold no decision, and
/// the others hold the decision they had.
proof fn lemma_decisions_after(s: Setting, tiles: Seq<Hex>, turns: int, j: int)
    requires
        s.valid(),
        tiles.len() == s.count(),
        0 <= turns <= s.count(),
        0 <= j < s.count(),
    ensures
        s.passed(tiles, 0, turns)[j].decision == if exists|turn: int|
            0 <= turn < turns && s.tile_of(turn) == j {
            None
        } else {
            tiles[j].decision
        },
    decreases turns,
{
    if turns > 0 {
        lemma_decisions_after(s, tiles, turns - 1, j);
        lemma_pass_keeps_count(s, tiles, 0, turns - 1);
        lemma_turn_decisions(s, s.passed(tiles, 0, turns - 1), turns - 1, j);
        if exists|turn: int| 0 <= turn < turns - 1 && s.tile_of(turn) == j {
            let turn = choose|turn: int| 0 <= turn < turns - 1 && s.tile_of(turn) == j;
            assert(0 <= turn < turns && s.tile_of(turn) == j);
        } else if s.tile_of(turns - 1) == j {
            assert(0 <= turns - 1 < turns && s.tile_of(turns - 1) == j);
        }
    }
}

/// Decisions are transient: after the pass no tile holds one.
pub proof fn lemma_pass_consumes_decisions(s: Setting, tiles: Seq<Hex>)
    requires
        s.valid(),
        tiles.len() == s.count(),
    ensures
        s.resolved(tiles).len() == tiles.len(),
        forall|j: int| 0 <= j < tiles.len() ==> (#[trigger] s.resolved(tiles)[j]).decision is None,
{
    lemma_pass_keeps_count(s, tiles, 0, s.count());
    assert forall|j: int| 0 <= j < tiles.len() implies (#[trigger] s.resolved(
        tiles,
    )[j]).decision is None by {
        lemma_decisions_after(s, tiles, s.count(), j);
        lemma_index_splits(j, s.width, s.height);
        lemma_turn_of_tile(s, j % s.width, j / s.width);
        let turn = s.turn_of(j % s.width, j / s.width);
        assert(0 <= turn < s.count() && s.tile_of(turn) == j);
    }
}

/// What `Grid::advance` hands back lies on the way of the pass: it stops
/// after a turn of the pass, the tiles it leaves are those of the pass once
/// the offspring it asks for is settled on the tile of that turn, and it
/// hands back `Idle` only at the end of the pass.
pub proof fn lemma_advance_within_pass(s: Setting, tiles: Seq<Hex>, cursor: int)
    requires
        s.valid(),
        tiles.len() == s.count(),
        0 <= cursor <= s.count(),
    ensures
        ({
            let r = advanced(
                tiles,
                s.width,
                s.height,
                s.movement_cost,
                s.divide_cost,
                s.deltas,
                cursor,
            );
            &&& cursor <= r.1 <= s.count()
            &&& r.0.len() == tiles.len()
            &&& r.2 is Idle ==> r.1 == s.count()
            &&& !(r.2 is Idle) ==> cursor < r.1
            &&& if r.2 is Divide || r.2 is Mate {
                Grid::settled(r.0, s.tile_of(r.1 - 1), s.brood[r.1 - 1]) == s.passed(
                    tiles,
                    cursor,
                    r.1,
                )
            } else {
                r.0 == s.passed(tiles, cursor, r.1)
            }
        }),
    decreases s.count() - cursor,
{
    if cursor < s.count() {
        let step = s.step(tiles, cursor);
        lemma_turns_and_tiles(s, cursor);
        lemma_turn_keeps_count(s, tiles, cursor);
        assert(s.passed(tiles, cursor, cursor + 1) == s.turn_taken(tiles, cursor)) by {
            assert(s.passed(tiles, cursor, cursor) == tiles);
        }
        if step.1 is Idle {
            lemma_advance_within_pass(s, step.0, cursor + 1);
            let r = advanced(
                tiles,
                s.width,
                s.height,
                s.movement_cost,
                s.divide_cost,
                s.deltas,
                cursor,
            );
            lemma_pass_splits(s, tiles, cursor, cursor + 1, r.1);
        }
    }
}

/// The scan of a tile reads nothing but the decisions of its neighbours.
proof fn lemma_scan_reads_decisions(
    one: Seq<Hex>,
    other: Seq<Hex>,
    width: int,
    height: int,
    x: int,
    y: int,
    k: int,
)
    requires
        width >= 1,
        height >= 1,
        one.len() == width * height,
        other.len() == one.len(),
        forall|j: int| 0 <= j < one.len() ==> (#[trigger] one[j]).decision == other[j].decision,
    ensures
        scanned(one, width, height, x, y, k) == scanned(other, width, height, x, y, k),
    decreases k,
{
    if k > 0 {
        lemma_scan_reads_decisions(one, other, width, height, x, y, k - 1);
        let n = neighbor(x, y, width, height, Direction::at(k - 1));
        lemma_neighbor_in_range(x, y, width, height, Direction::at(k - 1));
        lemma_index_in_range(n.0, n.1, width, height);
    }
}

/// Marking the organisms that decided to die changes neither what is
/// gathered nor which tiles are occupied, and leaves every decision with
/// its organism.
pub proof fn lemma_marking_keeps_records(tiles: Seq<Hex>, width: int, height: int)
    requires
        width >= 1,
        height >= 1,
        tiles.len() == width * height,
    ensures
        all_gathered(all_marked(tiles), width, height) == all_gathered(tiles, width, height),
        coherent(tiles) ==> coherent(all_marked(tiles)),
        forall|k: int|
            0 <= k < tiles.len() ==> (#[trigger] all_marked(tiles)[k]).cell is Some
                == tiles[k].cell is Some,
{
    let after = all_marked(tiles);
    assert forall|k: int| 0 <= k < tiles.len() implies #[trigger] all_gathered(
        after,
        width,
        height,
    )[k] == all_gathered(tiles, width, height)[k] by {
        lemma_index_splits(k, width, height);
        lemma_scan_reads_decisions(after, tiles, width, height, k % width, k / width, 6);
    }
    assert(all_gathered(after, width, height) =~= all_gathered(tiles, width, height));
}

/// No tile holds a decision without an organism that made it.
pub open spec fn coherent(tiles: Seq<Hex>) -> bool {
    forall|k: int| 0 <= k < tiles.len() && (#[trigger] tiles[k]).decision is Some ==> tiles[k].cell is Some
}

/// The tile `a` lies inside the grid and holds the decision to move into
/// the tile `(x, y)`: the direction it chose leads from `(x, y)` back to
/// `a` when taken the other way round.
pub open spec fn moves_toward(
    tiles: Seq<Hex>,
    width: int,
    height: int,
    a: (usize, usize),
    x: int,
    y: int,
) -> bool {
    &&& a.0 < width
    &&& a.1 < height
    &&& match tiles[tile_index(a.0 as int, a.1 as int, width)].decision {
        Some(Decision::Move(d)) => neighbor(x, y, width, height, d.opposite()) == (
            a.0 as int,
            a.1 as int,
        ),
        _ => false,
    }
}

/// The attempt `m` comes from a tile inside the grid that holds the
/// decision to divide and to spawn into the tile `(x, y)`.
pub open spec fn spawns_toward(
    tiles: Seq<Hex>,
    width: int,
    height: int,
    m: Mate,
    x: int,
    y: int,
) -> bool {
    &&& m.source.0 < width
    &&& m.source.1 < height
    &&& m.mate.0 < width
    &&& m.mate.1 < height
    &&& match tiles[tile_index(m.source.0 as int, m.source.1 as int, width)].decision {
        Some(Decision::Divide { mate, spawn }) => neighbor(x, y, width, height, spawn.opposite())
            == (m.source.0 as int, m.source.1 as int),
        _ => false,
    }
}

/// Every attempt that the scan of a tile records comes from a neighbour
/// whose decision aims at the tile.
pub proof fn lemma_scanned_sources(
    tiles: Seq<Hex>,
    width: int,
    height: int,
    x: int,
    y: int,
    k: int,
)
    requires
        1 <= width <= usize::MAX,
        1 <= height <= usize::MAX,
        0 <= k,
    ensures
        forall|a: (usize, usize)|
            scanned(tiles, width, height, x, y, k).movement_attempts.has(a) ==> moves_toward(
                tiles,
                width,
                height,
                a,
                x,
                y,
            ),
        forall|m: Mate|
            scanned(tiles, width, height, x, y, k).mate_attempts.has(m) ==> spawns_toward(
                tiles,
                width,
                height,
                m,
                x,
                y,
            ),
    decreases k,
{
    if k > 0 {
        lemma_scanned_sources(tiles, width, height, x, y, k - 1);
        let d = Direction::at(k - 1);
        let n = neighbor(x, y, width, height, d);
        lemma_neighbor_in_range(x, y, width, height, d);
        lemma_opposite(d);
        match tiles[tile_index(n.0, n.1, width)].decision {
            Some(Decision::Divide { mate, spawn }) => {
                lemma_neighbor_in_range(n.0, n.1, width, height, mate);
                lemma_opposite(spawn);
            },
            Some(Decision::Move(direction)) => {
                lemma_opposite(direction);
            },
            _ => {},
        }
    }
}

/// A decision to move, or to spawn, is seen by one tile only: two tiles
/// that find the same tile in the same direction are one tile.
pub proof fn lemma_one_target(
    width: int,
    height: int,
    a: (usize, usize),
    d: Direction,
    x1: int,
    y1: int,
    x2: int,
    y2: int,
)
    requires
        width >= 1,
        height >= 1,
        0 <= x1 < width,
        0 <= y1 < height,
        0 <= x2 < width,
        0 <= y2 < height,
        neighbor(x1, y1, width, height, d.opposite()) == (a.0 as int, a.1 as int),
        neighbor(x2, y2, width, height, d.opposite()) == (a.0 as int, a.1 as int),
    ensures
        x1 == x2,
        y1 == y2,
{
    lemma_step_injective(x1, y1, x2, y2, width, height, d.opposite());
}

/// The setting of a pass over `tiles` with the attempts gathered from these
/// same tiles.
pub open spec fn gathered_setting(
    tiles: Seq<Hex>,
    width: int,
    height: int,
    movement_cost: int,
    divide_cost: int,
    brood: Seq<Cell>,
) -> Setting {
    Setting {
        width,
        height,
        movement_cost,
        divide_cost,
        deltas: all_gathered(tiles, width, height),
        brood,
    }
}

/// What the gathered record of a tile says of the tile its single attempt
/// comes from: that tile lies in the grid, holds a decision that aims at
/// the first tile, and is the source that the turn of the first tile draws
/// on.
proof fn lemma_source_aims(
    tiles: Seq<Hex>,
    width: int,
    height: int,
    movement_cost: int,
    divide_cost: int,
    brood: Seq<Cell>,
    k: int,
)
    requires
        1 <= width <= usize::MAX,
        1 <= height <= usize::MAX,
        tiles.len() == width * height,
        0 <= k < width * height,
    ensures
        ({
            let s = gathered_setting(tiles, width, height, movement_cost, divide_cost, brood);
            let x = k % width;
            let y = k / width;
            &&& 0 <= x < width
            &&& 0 <= y < height
            &&& tile_index(x, y, width) == k
            &&& s.deltas[k] == gathered(tiles, width, height, x, y)
            &&& tiles[k].cell is Some ==> s.deltas[k] == Delta::empty()
            &&& forall|a: (usize, usize)|
                s.deltas[k].movement_attempts.has(a) ==> moves_toward(tiles, width, height, a, x, y)
            &&& forall|m: Mate|
                s.deltas[k].mate_attempts.has(m) ==> spawns_toward(tiles, width, height, m, x, y)
        }),
{
    lemma_index_splits(k, width, height);
    lemma_scanned_sources(tiles, width, height, k % width, k / width, 6);
}

/// Movement conservation. On a grid whose decisions all belong to
/// organisms, a tile for which exactly one movement attempt was gathered
/// holds the organism that made it after the pass, whatever else was
/// decided and whatever offspring was settled: the organism has paid the
/// movement cost, down to zero at most, and the tile it came from is
/// vacant.
pub proof fn lemma_move_conserved(
    tiles: Seq<Hex>,
    width: int,
    height: int,
    movement_cost: int,
    divide_cost: int,
    brood: Seq<Cell>,
    x: int,
    y: int,
    from: (usize, usize),
)
    requires
        1 <= width <= usize::MAX,
        1 <= height <= usize::MAX,
        tiles.len() == width * height,
        coherent(tiles),
        0 <= x < width,
        0 <= y < height,
        gathered(tiles, width, height, x, y).movement_attempts == Attempts::One(from),
    ensures
        from.0 < width,
        from.1 < height,
        tiles[tile_index(x, y, width)].cell is None,
        tiles[tile_index(from.0 as int, from.1 as int, width)].cell is Some,
        ({
            let s = gathered_setting(tiles, width, height, movement_cost, divide_cost, brood);
            let mover = tiles[tile_index(from.0 as int, from.1 as int, width)].cell->0;
            let after = s.resolved(tiles);
            &&& after[tile_index(x, y, width)].cell == Some(
                Cell { inhale: spent(mover.inhale, movement_cost), suicide: mover.suicide },
            )
            &&& after[tile_index(from.0 as int, from.1 as int, width)].cell is None
        }),
{
    let s = gathered_setting(tiles, width, height, movement_cost, divide_cost, brood);
    let t = tile_index(x, y, width);
    let f = tile_index(from.0 as int, from.1 as int, width);
    lemma_index_in_range(x, y, width, height);
    lemma_source_aims(tiles, width, height, movement_cost, divide_cost, brood, t);
    assert(s.deltas[t].movement_attempts.has(from));
    assert(moves_toward(tiles, width, height, from, x, y));
    lemma_index_in_range(from.0 as int, from.1 as int, width, height);
    lemma_source_aims(tiles, width, height, movement_cost, divide_cost, brood, f);
    let d = tiles[f].decision->0->Move_0;
    assert forall|k: int| 0 <= k < s.count() && k != t implies #[trigger] s.source_of(k) != Some(
        f,
    ) by {
        lemma_source_aims(tiles, width, height, movement_cost, divide_cost, brood, k);
        match s.deltas[k].movement_attempts {
            Attempts::One(g) => {
                assert(s.deltas[k].movement_attempts.has(g));
                lemma_index_in_range(g.0 as int, g.1 as int, width, height);
                if tile_index(g.0 as int, g.1 as int, width) == f {
                    lemma_index_injective(
                        g.0 as int,
                        g.1 as int,
                        from.0 as int,
                        from.1 as int,
                        width,
                    );
                    lemma_one_target(width, height, from, d, x, y, k % width, k / width);
                }
            },
            _ => match s.deltas[k].mate_attempts {
                Attempts::One(m) => {
                    assert(s.deltas[k].mate_attempts.has(m));
                    lemma_index_in_range(m.source.0 as int, m.source.1 as int, width, height);
                    if tile_index(m.source.0 as int, m.source.1 as int, width) == f {
                        lemma_index_injective(
                            m.source.0 as int,
                            m.source.1 as int,
                            from.0 as int,
                            from.1 as int,
                            width,
                        );
                    }
                },
                _ => {},
            },
        }
    }
    assert forall|k: int| 0 <= k < s.count() implies #[trigger] s.source_of(k) != Some(t) by {
        lemma_source_aims(tiles, width, height, movement_cost, divide_cost, brood, k);
        match s.deltas[k].movement_attempts {
            Attempts::One(g) => {
                assert(s.deltas[k].movement_attempts.has(g));
                lemma_index_in_range(g.0 as int, g.1 as int, width, height);
            },
            _ => match s.deltas[k].mate_attempts {
                Attempts::One(m) => {
                    assert(s.deltas[k].mate_attempts.has(m));
                    lemma_index_in_range(m.source.0 as int, m.source.1 as int, width, height);
                },
                _ => {},
            },
        }
    }
    lemma_single_mover_arrives(s, tiles, x, y, from);
}

/// Movement cancellation. On a grid whose decisions all belong to
/// organisms, a tile for which two movement attempts were gathered, and not
/// exactly one attempt to spawn, is vacant after the pass, and the two
/// organisms are where they were and as they were.
pub proof fn lemma_collision_conserved(
    tiles: Seq<Hex>,
    width: int,
    height: int,
    movement_cost: int,
    divide_cost: int,
    brood: Seq<Cell>,
    x: int,
    y: int,
    first: (usize, usize),
    second: (usize, usize),
)
    requires
        1 <= width <= usize::MAX,
        1 <= height <= usize::MAX,
        tiles.len() == width * height,
        coherent(tiles),
        0 <= x < width,
        0 <= y < height,
        gathered(tiles, width, height, x, y).movement_attempts == Attempts::Two(first, second),
        !(gathered(tiles, width, height, x, y).mate_attempts is One),
    ensures
        first.0 < width,
        first.1 < height,
        second.0 < width,
        second.1 < height,
        ({
            let s = gathered_setting(tiles, width, height, movement_cost, divide_cost, brood);
            let after = s.resolved(tiles);
            let a = tile_index(first.0 as int, first.1 as int, width);
            let b = tile_index(second.0 as int, second.1 as int, width);
            &&& tiles[a].cell is Some
            &&& tiles[b].cell is Some
            &&& after[tile_index(x, y, width)].cell is None
            &&& after[a].cell == tiles[a].cell
            &&& after[b].cell == tiles[b].cell
        }),
{
    let s = gathered_setting(tiles, width, height, movement_cost, divide_cost, brood);
    let t = tile_index(x, y, width);
    let a = tile_index(first.0 as int, first.1 as int, width);
    let b = tile_index(second.0 as int, second.1 as int, width);
    lemma_index_in_range(x, y, width, height);
    lemma_source_aims(tiles, width, height, movement_cost, divide_cost, brood, t);
    assert(s.deltas[t].movement_attempts.has(first));
    assert(s.deltas[t].movement_attempts.has(second));
    lemma_index_in_range(first.0 as int, first.1 as int, width, height);
    lemma_index_in_range(second.0 as int, second.1 as int, width, height);
    lemma_source_aims(tiles, width, height, movement_cost, divide_cost, brood, a);
    lemma_source_aims(tiles, width, height, movement_cost, divide_cost, brood, b);
    let da = tiles[a].decision->0->Move_0;
    let db = tiles[b].decision->0->Move_0;
    assert forall|k: int| 0 <= k < s.count() implies #[trigger] s.source_of(k) != Some(a)
        && s.source_of(k) != Some(b) by {
        lemma_source_aims(tiles, width, height, movement_cost, divide_cost, brood, k);
        match s.deltas[k].movement_attempts {
            Attempts::One(g) => {
                assert(s.deltas[k].movement_attempts.has(g));
                lemma_index_in_range(g.0 as int, g.1 as int, width, height);
                if tile_index(g.0 as int, g.1 as int, width) == a {
                    lemma_index_injective(
                        g.0 as int,
                        g.1 as int,
                        first.0 as int,
                        first.1 as int,
                        width,
                    );
                    lemma_one_target(width, height, first, da, x, y, k % width, k / width);
                }
                if tile_index(g.0 as int, g.1 as int, width) == b {
                    lemma_index_injective(
                        g.0 as int,
                        g.1 as int,
                        second.0 as int,
                        second.1 as int,
                        width,
                    );
                    lemma_one_target(width, height, second, db, x, y, k % width, k / width);
                }
            },
            _ => match s.deltas[k].mate_attempts {
                Attempts::One(m) => {
                    assert(s.deltas[k].mate_attempts.has(m));
                    lemma_index_in_range(m.source.0 as int, m.source.1 as int, width, height);
                    if tile_index(m.source.0 as int, m.source.1 as int, width) == a {
                        lemma_index_injective(
                            m.source.0 as int,
                            m.source.1 as int,
                            first.0 as int,
                            first.1 as int,
                            width,
                        );
                    }
                    if tile_index(m.source.0 as int, m.source.1 as int, width) == b {
                        lemma_index_injective(
                            m.source.0 as int,
                            m.source.1 as int,
                            second.0 as int,
                            second.1 as int,
                            width,
                        );
                    }
                },
                _ => {},
            },
        }
    }
    lemma_collision_cancels(s, tiles, x, y, first, second);
}

/// The scan of a tile, written out neighbour by neighbour.
proof fn lemma_scan_unfolds(tiles: Seq<Hex>, width: int, height: int, x: int, y: int)
    ensures
        scanned(tiles, width, height, x, y, 6) == Delta::empty().noted(
            claim(tiles, width, height, x, y, 0),
        ).noted(claim(tiles, width, height, x, y, 1)).noted(
            claim(tiles, width, height, x, y, 2),
        ).noted(claim(tiles, width, height, x, y, 3)).noted(
            claim(tiles, width, height, x, y, 4),
        ).noted(claim(tiles, width, height, x, y, 5)),
{
    reveal_with_fuel(scanned, 7);
}

/// Movement conservation for a lone mover. On a grid whose decisions all
/// belong to organisms, let the organism on `(sx, sy)` decide to move in
/// direction `d`, let the tile there be vacant and let no other neighbour
/// of that tile ask for it. After the pass the organism is on that tile,
/// its inhale lowered by the movement cost and not below zero, and
/// `(sx, sy)` is vacant. This holds wherever the step in direction `d` can
/// be taken back: across the seam of a grid of odd height the tile that
/// takes the organism in is another one.
pub proof fn lemma_lone_mover_arrives(
    tiles: Seq<Hex>,
    width: int,
    height: int,
    movement_cost: int,
    divide_cost: int,
    brood: Seq<Cell>,
    sx: int,
    sy: int,
    d: Direction,
)
    requires
        1 <= width <= usize::MAX,
        1 <= height <= usize::MAX,
        tiles.len() == width * height,
        coherent(tiles),
        0 <= sx < width,
        0 <= sy < height,
        tiles[tile_index(sx, sy, width)].decision == Some(Decision::Move(d)),
        d.lateral() || width == 1 || neighbor(sx, sy, width, height, d).1 % 2 != sy % 2,
        ({
            let to = neighbor(sx, sy, width, height, d);
            &&& tiles[tile_index(to.0, to.1, width)].cell is None
            &&& forall|i: int|
                0 <= i < 6 && i != d.opposite().index() ==> #[trigger] claim(
                    tiles,
                    width,
                    height,
                    to.0,
                    to.1,
                    i,
                ) is None
        }),
    ensures
        ({
            let to = neighbor(sx, sy, width, height, d);
            let s = gathered_setting(tiles, width, height, movement_cost, divide_cost, brood);
            let mover = tiles[tile_index(sx, sy, width)].cell->0;
            let after = s.resolved(tiles);
            &&& tiles[tile_index(sx, sy, width)].cell is Some
            &&& after[tile_index(to.0, to.1, width)].cell == Some(
                Cell { inhale: spent(mover.inhale, movement_cost), suicide: mover.suicide },
            )
            &&& after[tile_index(sx, sy, width)].cell is None
        }),
{
    let to = neighbor(sx, sy, width, height, d);
    lemma_neighbor_in_range(sx, sy, width, height, d);
    lemma_step_and_back(sx, sy, width, height, d);
    lemma_opposite(d);
    lemma_index_in_range(sx, sy, width, height);
    lemma_scan_unfolds(tiles, width, height, to.0, to.1);
    let i0 = d.opposite().index();
    let from = (sx as usize, sy as usize);
    assert(claim(tiles, width, height, to.0, to.1, i0) == Some(Claim::Move(from)));
    assert(claim(tiles, width, height, to.0, to.1, 0) is None || i0 == 0);
    assert(claim(tiles, width, height, to.0, to.1, 1) is None || i0 == 1);
    assert(claim(tiles, width, height, to.0, to.1, 2) is None || i0 == 2);
    assert(claim(tiles, width, height, to.0, to.1, 3) is None || i0 == 3);
    assert(claim(tiles, width, height, to.0, to.1, 4) is None || i0 == 4);
    assert(claim(tiles, width, height, to.0, to.1, 5) is None || i0 == 5);
    assert(gathered(tiles, width, height, to.0, to.1).movement_attempts == Attempts::One(from));
    lemma_move_conserved(
        tiles,
        width,
        height,
        movement_cost,
        divide_cost,
        brood,
        to.0,
        to.1,
        from,
    );
}

/// Movement cancellation for two movers face to face. On a grid whose
/// decisions all belong to organisms, let the organisms on two opposite
/// sides of a vacant tile both decide to move into it, and let no other
/// neighbour ask for that tile. After the pass the tile is vacant and both
/// organisms are where they were and as they were.
pub proof fn lemma_facing_movers_cancel(
    tiles: Seq<Hex>,
    width: int,
    height: int,
    movement_cost: int,
    divide_cost: int,
    brood: Seq<Cell>,
    x: int,
    y: int,
    e: Direction,
)
    requires
        1 <= width <= usize::MAX,
        1 <= height <= usize::MAX,
        tiles.len() == width * height,
        coherent(tiles),
        0 <= x < width,
        0 <= y < height,
        tiles[tile_index(x, y, width)].cell is None,
        ({
            let a = neighbor(x, y, width, height, e);
            let b = neighbor(x, y, width, height, e.opposite());
            &&& tiles[tile_index(a.0, a.1, width)].decision == Some(Decision::Move(e.opposite()))
            &&& tiles[tile_index(b.0, b.1, width)].decision == Some(Decision::Move(e))
        }),
        forall|i: int|
            0 <= i < 6 && i != e.index() && i != e.opposite().index() ==> #[trigger] claim(
                tiles,
                width,
                height,
                x,
                y,
                i,
            ) is None,
    ensures
        ({
            let a = neighbor(x, y, width, height, e);
            let b = neighbor(x, y, width, height, e.opposite());
            let s = gathered_setting(tiles, width, height, movement_cost, divide_cost, brood);
            let after = s.resolved(tiles);
            &&& after[tile_index(x, y, width)].cell is None
            &&& tiles[tile_index(a.0, a.1, width)].cell is Some
            &&& tiles[tile_index(b.0, b.1, width)].cell is Some
            &&& after[tile_index(a.0, a.1, width)].cell == tiles[tile_index(a.0, a.1, width)].cell
            &&& after[tile_index(b.0, b.1, width)].cell == tiles[tile_index(b.0, b.1, width)].cell
        }),
{
    let a = neighbor(x, y, width, height, e);
    let b = neighbor(x, y, width, height, e.opposite());
    lemma_neighbor_in_range(x, y, width, height, e);
    lemma_neighbor_in_range(x, y, width, height, e.opposite());
    lemma_opposite(e);
    lemma_opposite(e.opposite());
    lemma_scan_unfolds(tiles, width, height, x, y);
    let i1 = e.index();
    let i2 = e.opposite().index();
    let pa = (a.0 as usize, a.1 as usize);
    let pb = (b.0 as usize, b.1 as usize);
    assert(claim(tiles, width, height, x, y, i1) == Some(Claim::Move(pa)));
    assert(claim(tiles, width, height, x, y, i2) == Some(Claim::Move(pb)));
    assert(claim(tiles, width, height, x, y, 0) is None || i1 == 0 || i2 == 0);
    assert(claim(tiles, width, height, x, y, 1) is None || i1 == 1 || i2 == 1);
    assert(claim(tiles, width, height, x, y, 2) is None || i1 == 2 || i2 == 2);
    assert(claim(tiles, width, height, x, y, 3) is None || i1 == 3 || i2 == 3);
    assert(claim(tiles, width, height, x, y, 4) is None || i1 == 4 || i2 == 4);
    assert(claim(tiles, width, height, x, y, 5) is None || i1 == 5 || i2 == 5);
    let first = if i1 < i2 {
        pa
    } else {
        pb
    };
    let second = if i1 < i2 {
        pb
    } else {
        pa
    };
    assert(gathered(tiles, width, height, x, y).movement_attempts == Attempts::Two(first, second));
    assert(gathered(tiles, width, height, x, y).mate_attempts == Attempts::<Mate>::Empty);
    lemma_collision_conserved(
        tiles,
        width,
        height,
        movement_cost,
        divide_cost,
        brood,
        x,
        y,
        first,
        second,
    );
}

/// Number of organisms on the tiles.
pub open spec fn population(tiles: Seq<Hex>) -> nat
    decreases tiles.len(),
{
    if tiles.len() == 0 {
        0
    } else {
        population(tiles.drop_last()) + if tiles.last().cell is Some {
            1nat
        } else {
            0nat
        }
    }
}

/// Number of turns from `from` up to, but without, `to` that ask for
/// offspring.
pub open spec fn births(s: Setting, tiles: Seq<Hex>, from: int, to: int) -> nat
    decreases to - from,
{
    if to <= from {
        0
    } else {
        let outcome = s.step(s.passed(tiles, from, to - 1), to - 1).1;
        births(s, tiles, from, to - 1) + if outcome is Divide || outcome is Mate {
            1nat
        } else {
            0nat
        }
    }
}

/// Changing one tile changes the number of organisms by what that tile
/// gains or loses.
proof fn lemma_population_update(tiles: Seq<Hex>, i: int, hex: Hex)
    requires
        0 <= i < tiles.len(),
    ensures
        population(tiles.update(i, hex)) + (if tiles[i].cell is Some {
            1nat
        } else {
            0nat
        }) == population(tiles) + (if hex.cell is Some {
            1nat
        } else {
            0nat
        }),
    decreases tiles.len(),
{
    let changed = tiles.update(i, hex);
    if i == tiles.len() - 1 {
        assert(changed.drop_last() =~= tiles.drop_last());
    } else {
        assert(changed.drop_last() =~= tiles.drop_last().update(i, hex));
        lemma_population_update(tiles.drop_last(), i, hex);
    }
}

/// A turn makes no organism and loses none, but for the offspring that is
/// settled.
proof fn lemma_turn_population(s: Setting, tiles: Seq<Hex>, turn: int)
    requires
        s.valid(),
        tiles.len() == s.count(),
        0 <= turn < s.count(),
    ensures
        population(s.turn_taken(tiles, turn)) == population(tiles) + if s.step(tiles, turn).1
            is Divide || s.step(tiles, turn).1 is Mate {
            1nat
        } else {
            0nat
        },
{
    lemma_turns_and_tiles(s, turn);
    let t = s.tile_of(turn);
    let delta = s.deltas[t];
    let cleared = tiles.update(t, Hex { cell: tiles[t].cell, decision: None });
    lemma_population_update(tiles, t, Hex { cell: tiles[t].cell, decision: None });
    if tiles[t].cell is None {
        match delta.movement_attempts {
            Attempts::One(from) => {
                let f = spot(from.0 as int, from.1 as int, s.width, s.height);
                lemma_spot_in_range(from.0 as int, from.1 as int, s.width, s.height);
                if tiles[f].cell is Some {
                    let vacated = tiles.update(f, Hex { cell: None, decision: tiles[f].decision });
                    lemma_population_update(
                        tiles,
                        f,
                        Hex { cell: None, decision: tiles[f].decision },
                    );
                    lemma_population_update(vacated, t, s.step(tiles, turn).0[t]);
                }
            },
            _ => match delta.mate_attempts {
                Attempts::One(attempt) => {
                    let f = spot(
                        attempt.source.0 as int,
                        attempt.source.1 as int,
                        s.width,
                        s.height,
                    );
                    lemma_spot_in_range(
                        attempt.source.0 as int,
                        attempt.source.1 as int,
                        s.width,
                        s.height,
                    );
                    lemma_spot_in_range(
                        attempt.mate.0 as int,
                        attempt.mate.1 as int,
                        s.width,
                        s.height,
                    );
                    let outcome = s.step(tiles, turn).1;
                    if outcome is Divide || outcome is Mate {
                        let paid = s.step(tiles, turn).0;
                        lemma_population_update(cleared, f, paid[f]);
                        assert(paid =~= cleared.update(f, paid[f]));
                        lemma_population_update(
                            paid,
                            t,
                            Hex { cell: Some(s.brood[turn]), decision: paid[t].decision },
                        );
                    }
                },
                _ => {},
            },
        }
    }
}

/// Conservation of organisms. The pass moves organisms and settles
/// offspring, and does nothing else to their number: after it there are as
/// many organisms as before and as turns asked for offspring. No organism
/// is lost and none is on two tiles.
pub proof fn lemma_pass_population(s: Setting, tiles: Seq<Hex>, from: int, to: int)
    requires
        s.valid(),
        tiles.len() == s.count(),
        0 <= from <= to <= s.count(),
    ensures
        population(s.passed(tiles, from, to)) == population(tiles) + births(s, tiles, from, to),
    decreases to - from,
{
    if from < to {
        lemma_pass_population(s, tiles, from, to - 1);
        lemma_pass_keeps_count(s, tiles, from, to - 1);
        lemma_turn_population(s, s.passed(tiles, from, to - 1), to - 1);
    }
}

} // verus!
