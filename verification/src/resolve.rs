//! Turning the decisions of one tick into one outcome per tile.
//!
//! The phase has two parts. Gathering looks, for every vacant tile, at the
//! decisions of its six neighbours and records who tries to move or to
//! spawn into it, giving up after two of a kind. Applying then walks the
//! tiles column by column and lets a tile with exactly one suitor have its
//! way; two suitors cancel each other.

use crate::grid::Grid;
use crate::tile::{Cell, Decision, Hex};
use crate::topology::{
    in_direction, lemma_index_splits, lemma_spot_in_range, neighbor, spot, tile_index, Direction,
};
use vstd::prelude::*;

verus! {

/// At most two recorded attempts of one kind. Further attempts are not
/// counted.
#[derive(PartialEq, Eq, Debug)]
pub enum Attempts<T> {
    Empty,
    One(T),
    Two(T, T),
}

impl<T: Copy> Clone for Attempts<T> {
    fn clone(&self) -> (r: Self)
        ensures
            r == *self,
    {
        *self
    }
}

impl<T: Copy> Copy for Attempts<T> {

}

impl<T> Attempts<T> {
    /// How many attempts are recorded.
    pub open spec fn count(self) -> nat {
        match self {
            Attempts::Empty => 0,
            Attempts::One(_) => 1,
            Attempts::Two(_, _) => 2,
        }
    }

    /// Whether `item` is one of the recorded attempts.
    pub open spec fn has(self, item: T) -> bool {
        match self {
            Attempts::Empty => false,
            Attempts::One(first) => item == first,
            Attempts::Two(first, second) => item == first || item == second,
        }
    }

    /// The record after one more attempt; a third attempt is dropped.
    pub open spec fn with(self, item: T) -> Attempts<T> {
        match self {
            Attempts::Empty => Attempts::One(item),
            Attempts::One(first) => Attempts::Two(first, item),
            Attempts::Two(first, second) => Attempts::Two(first, second),
        }
    }

    /// How many attempts are recorded.
    pub fn len(&self) -> (n: usize)
        ensures
            n == self.count(),
    {
        match self {
            Attempts::Empty => 0,
            Attempts::One(_) => 1,
            Attempts::Two(_, _) => 2,
        }
    }

    /// Records one more attempt; a third attempt is dropped.
    pub fn push(self, item: T) -> (r: Attempts<T>)
        ensures
            r == self.with(item),
    {
        match self {
            Attempts::Empty => Attempts::One(item),
            Attempts::One(first) => Attempts::Two(first, item),
            Attempts::Two(first, second) => Attempts::Two(first, second),
        }
    }
}

/// An attempt to spawn: the tile of the organism that divides, and the tile
/// of the partner it chose.
#[derive(Clone, Copy, PartialEq, Eq, Debug)]
pub struct Mate {
    pub mate: (usize, usize),
    pub source: (usize, usize),
}

/// What the neighbours of one tile ask of it in the current tick: the tiles
/// of those that try to move in, and the attempts to spawn into it.
#[derive(Clone, Copy, PartialEq, Eq, Debug)]
pub struct Delta {
    pub movement_attempts: Attempts<(usize, usize)>,
    pub mate_attempts: Attempts<Mate>,
}

/// What one neighbour asks of a tile.
#[derive(Clone, Copy, PartialEq, Eq, Debug)]
pub enum Claim {
    /// The organism on this tile moves in.
    Move((usize, usize)),
    /// This attempt to spawn aims at the tile.
    Spawn(Mate),
}

/// What became of a tile when its turn came.
#[derive(Clone, Copy, PartialEq, Eq, Debug)]
pub enum Outcome {
    /// Nothing moved and nothing is to be born.
    Idle,
    /// The organism of tile `from` now lives on tile `to`.
    Moved { from: (usize, usize), to: (usize, usize) },
    /// The organism on `source` has paid for a division; its offspring is
    /// due on the vacant tile `to`.
    Divide { source: (usize, usize), to: (usize, usize) },
    /// The organism on `source` has paid for mating with the one on `mate`;
    /// their offspring is due on the vacant tile `to`.
    Mate { source: (usize, usize), mate: (usize, usize), to: (usize, usize) },
}

impl Delta {
    /// No attempt of either kind.
    pub open spec fn empty() -> Delta {
        Delta { movement_attempts: Attempts::Empty, mate_attempts: Attempts::Empty }
    }

    /// Two attempts of one kind are on record, which ends the scan of the
    /// neighbours.
    pub open spec fn full(self) -> bool {
        self.movement_attempts.count() == 2 || self.mate_attempts.count() == 2
    }

    /// The record after the next neighbour was looked at. Once the record
    /// is full nothing is added.
    pub open spec fn noted(self, claim: Option<Claim>) -> Delta {
        if self.full() {
            self
        } else {
            match claim {
                Some(Claim::Move(source)) => Delta {
                    movement_attempts: self.movement_attempts.with(source),
                    mate_attempts: self.mate_attempts,
                },
                Some(Claim::Spawn(mate)) => Delta {
                    movement_attempts: self.movement_attempts,
                    mate_attempts: self.mate_attempts.with(mate),
                },
                None => self,
            }
        }
    }

    /// A record without attempts.
    pub fn new() -> (d: Delta)
        ensures
            d == Delta::empty(),
    {
        Delta { movement_attempts: Attempts::Empty, mate_attempts: Attempts::Empty }
    }

    /// Whether two attempts of one kind are on record.
    pub fn is_full(&self) -> (b: bool)
        ensures
            b == self.full(),
    {
        self.movement_attempts.len() == 2 || self.mate_attempts.len() == 2
    }
}

/// Inhale left after paying `cost`: never below zero.
pub open spec fn spent(inhale: usize, cost: int) -> usize {
    if inhale >= cost {
        (inhale - cost) as usize
    } else {
        0
    }
}

/// What the neighbour at position `i` of the vacant tile `(x, y)` asks of
/// it. A neighbour that decided to move asks for the tile if its direction
/// points back at it; one that decided to divide asks for it if its spawn
/// direction does, and names as partner the tile its mate direction points
/// to.
pub open spec fn claim(tiles: Seq<Hex>, width: int, height: int, x: int, y: int, i: int) -> Option<
    Claim,
> {
    let d = Direction::at(i);
    let n = neighbor(x, y, width, height, d);
    let source = (n.0 as usize, n.1 as usize);
    match tiles[tile_index(n.0, n.1, width)].decision {
        Some(Decision::Move(direction)) => if direction == d.opposite() {
            Some(Claim::Move(source))
        } else {
            None
        },
        Some(Decision::Divide { mate, spawn }) => if spawn == d.opposite() {
            let partner = neighbor(n.0, n.1, width, height, mate);
            Some(Claim::Spawn(Mate { mate: (partner.0 as usize, partner.1 as usize), source }))
        } else {
            None
        },
        _ => None,
    }
}

/// The record of tile `(x, y)` after its first `k` neighbours were looked
/// at in canonical order.
pub open spec fn scanned(tiles: Seq<Hex>, width: int, height: int, x: int, y: int, k: int) -> Delta
    decreases k,
{
    if k <= 0 {
        Delta::empty()
    } else {
        scanned(tiles, width, height, x, y, k - 1).noted(claim(tiles, width, height, x, y, k - 1))
    }
}

/// The record of tile `(x, y)`: empty for an occupied tile, and otherwise
/// what the scan of all six neighbours leaves.
pub open spec fn gathered(tiles: Seq<Hex>, width: int, height: int, x: int, y: int) -> Delta {
    if tiles[tile_index(x, y, width)].cell is Some {
        Delta::empty()
    } else {
        scanned(tiles, width, height, x, y, 6)
    }
}

/// The records of all tiles, by tile index.
pub open spec fn all_gathered(tiles: Seq<Hex>, width: int, height: int) -> Seq<Delta> {
    Seq::new(tiles.len(), |k: int| gathered(tiles, width, height, k % width, k / width))
}

/// A tile after the actions that take effect on the spot: an occupant that
/// decided to die is marked for the death phase.
pub open spec fn marked(hex: Hex) -> Hex {
    match (hex.cell, hex.decision) {
        (Some(cell), Some(Decision::Suicide)) => Hex {
            cell: Some(Cell { inhale: cell.inhale, suicide: true }),
            decision: hex.decision,
        },
        _ => hex,
    }
}

/// The explosion that takes effect on a tile, by its sign: there is one
/// where the occupant decided to explode and holds the required inhale.
pub open spec fn blast(hex: Hex, explode_requirement: int) -> Option<bool> {
    match (hex.cell, hex.decision) {
        (Some(cell), Some(Decision::Explode(way))) => if cell.inhale >= explode_requirement {
            Some(way)
        } else {
            None
        },
        _ => None,
    }
}

/// All tiles after the actions that take effect on the spot.
pub open spec fn all_marked(tiles: Seq<Hex>) -> Seq<Hex> {
    Seq::new(tiles.len(), |k: int| marked(tiles[k]))
}

/// The explosions that take effect, by tile index.
pub open spec fn all_blasts(tiles: Seq<Hex>, explode_requirement: int) -> Seq<Option<bool>> {
    Seq::new(tiles.len(), |k: int| blast(tiles[k], explode_requirement))
}

/// The tiles and the outcome after the turn of tile `(x, y)` with record
/// `delta`.
///
/// The decision of the tile is consumed in every case. A tile that is
/// occupied gets nothing. A vacant tile with exactly one movement attempt
/// takes over the organism of the attempt's tile, which pays the movement
/// cost. Otherwise a vacant tile with exactly one attempt to spawn makes the
/// dividing organism pay movement and division cost, if the partner is the
/// tile itself (a division) or an occupied tile (a mating), and waits for
/// the offspring. An attempt whose own tile has no occupant does nothing.
pub open spec fn applied(
    tiles: Seq<Hex>,
    width: int,
    height: int,
    movement_cost: int,
    divide_cost: int,
    x: int,
    y: int,
    delta: Delta,
) -> (Seq<Hex>, Outcome) {
    let t = tile_index(x, y, width);
    let to = (x as usize, y as usize);
    let cleared = tiles.update(t, Hex { cell: tiles[t].cell, decision: None });
    if tiles[t].cell is Some {
        (cleared, Outcome::Idle)
    } else {
        match delta.movement_attempts {
            Attempts::One(from) => {
                let s = spot(from.0 as int, from.1 as int, width, height);
                match tiles[s].cell {
                    Some(mover) => (
                        tiles.update(s, Hex { cell: None, decision: tiles[s].decision }).update(
                            t,
                            Hex {
                                cell: Some(
                                    Cell {
                                        inhale: spent(mover.inhale, movement_cost),
                                        suicide: mover.suicide,
                                    },
                                ),
                                decision: None,
                            },
                        ),
                        Outcome::Moved { from, to },
                    ),
                    None => (cleared, Outcome::Idle),
                }
            },
            _ => match delta.mate_attempts {
                Attempts::One(attempt) => {
                    let s = spot(attempt.source.0 as int, attempt.source.1 as int, width, height);
                    let m = spot(attempt.mate.0 as int, attempt.mate.1 as int, width, height);
                    match tiles[s].cell {
                        Some(parent) => {
                            let paid = cleared.update(
                                s,
                                Hex {
                                    cell: Some(
                                        Cell {
                                            inhale: spent(
                                                parent.inhale,
                                                movement_cost + divide_cost,
                                            ),
                                            suicide: parent.suicide,
                                        },
                                    ),
                                    decision: tiles[s].decision,
                                },
                            );
                            if m == t {
                                (paid, Outcome::Divide { source: attempt.source, to })
                            } else if tiles[m].cell is Some {
                                (
                                    paid,
                                    Outcome::Mate {
                                        source: attempt.source,
                                        mate: attempt.mate,
                                        to,
                                    },
                                )
                            } else {
                                (cleared, Outcome::Idle)
                            }
                        },
                        None => (cleared, Outcome::Idle),
                    }
                },
                _ => (cleared, Outcome::Idle),
            },
        }
    }
}

/// The tile whose turn is the `turn`-th of the pass: the pass goes through
/// the columns from left to right and through each column from top to
/// bottom.
pub open spec fn turn_tile(turn: int, height: int) -> (int, int) {
    (turn / height, turn % height)
}

/// The pass from turn `cursor` up to and including the first turn that
/// moves an organism or asks for offspring: the tiles after it, the turn
/// that follows, and the outcome of the last turn taken. `Idle` means that
/// the pass reached its end.
pub open spec fn advanced(
    tiles: Seq<Hex>,
    width: int,
    height: int,
    movement_cost: int,
    divide_cost: int,
    deltas: Seq<Delta>,
    cursor: int,
) -> (Seq<Hex>, int, Outcome)
    decreases width * height - cursor,
{
    if cursor < 0 || cursor >= width * height {
        (tiles, cursor, Outcome::Idle)
    } else {
        let (x, y) = turn_tile(cursor, height);
        let step = applied(
            tiles,
            width,
            height,
            movement_cost,
            divide_cost,
            x,
            y,
            deltas[tile_index(x, y, width)],
        );
        if step.1 is Idle {
            advanced(step.0, width, height, movement_cost, divide_cost, deltas, cursor + 1)
        } else {
            (step.0, cursor + 1, step.1)
        }
    }
}

/// Subtracts `cost` from `inhale` and stops at zero.
fn pay(inhale: usize, cost: usize) -> (left: usize)
    ensures
        left == spent(inhale, cost as int),
{
    if inhale >= cost {
        inhale - cost
    } else {
        0
    }
}

impl Grid {
    /// What the neighbour at position `i` of the tile `(x, y)` asks of it.
    fn claim_of(&self, x: usize, y: usize, i: usize) -> (c: Option<Claim>)
        requires
            self.wf(),
            x < self.width,
            y < self.height,
            i < 6,
        ensures
            c == claim(
                self.tiles@,
                self.width as int,
                self.height as int,
                x as int,
                y as int,
                i as int,
            ),
    {
        let d = Direction::from_ordinal(i);
        let source = in_direction(x, y, self.width, self.height, d);
        let facing = d.flip();
        proof {
            lemma_spot_in_range(source.0 as int, source.1 as int, self.width as int, self.height as int);
            vstd::arithmetic::div_mod::lemma_small_mod(source.0 as nat, self.width as nat);
            vstd::arithmetic::div_mod::lemma_small_mod(source.1 as nat, self.height as nat);
        }
        match self.hex(source.0, source.1).decision {
            Some(Decision::Move(direction)) => {
                if direction == facing {
                    Some(Claim::Move(source))
                } else {
                    None
                }
            },
            Some(Decision::Divide { mate, spawn }) => {
                if spawn == facing {
                    let partner = in_direction(source.0, source.1, self.width, self.height, mate);
                    Some(Claim::Spawn(Mate { mate: partner, source }))
                } else {
                    None
                }
            },
            _ => None,
        }
    }

    /// Gathers the attempts that aim at the tile `(x, y)`; coordinates wrap
    /// around the edges. The scan of the neighbours stops as soon as two
    /// attempts of one kind are on record.
    pub fn gather_tile(&self, x: usize, y: usize) -> (delta: Delta)
        requires
            self.wf(),
        ensures
            delta == gathered(
                self.tiles@,
                self.width as int,
                self.height as int,
                (x % self.width) as int,
                (y % self.height) as int,
            ),
    {
        let cx: usize = x % self.width;
        let cy: usize = y % self.height;
        let mut delta = Delta::new();
        proof {
            vstd::arithmetic::div_mod::lemma_small_mod(cx as nat, self.width as nat);
            vstd::arithmetic::div_mod::lemma_small_mod(cy as nat, self.height as nat);
        }
        if self.hex(cx, cy).cell.is_some() {
            return delta;
        }
        let mut i: usize = 0;
        while i < 6 && !delta.is_full()
            invariant
                self.wf(),
                cx < self.width,
                cy < self.height,
                i <= 6,
                delta == scanned(
                    self.tiles@,
                    self.width as int,
                    self.height as int,
                    cx as int,
                    cy as int,
                    i as int,
                ),
            decreases 6 - i,
        {
            let c = self.claim_of(cx, cy, i);
            delta = match c {
                Some(Claim::Move(source)) => Delta {
                    movement_attempts: delta.movement_attempts.push(source),
                    mate_attempts: delta.mate_attempts,
                },
                Some(Claim::Spawn(mate)) => Delta {
                    movement_attempts: delta.movement_attempts,
                    mate_attempts: delta.mate_attempts.push(mate),
                },
                None => delta,
            };
            i = i + 1;
        }
        proof {
            lemma_full_scan_rests(
                self.tiles@,
                self.width as int,
                self.height as int,
                cx as int,
                cy as int,
                i as int,
                6,
            );
        }
        delta
    }

    /// Gathers the attempts for every tile, by tile index.
    pub fn gather(&self) -> (deltas: Vec<Delta>)
        requires
            self.wf(),
        ensures
            deltas@ == all_gathered(self.tiles@, self.width as int, self.height as int),
    {
        let mut deltas: Vec<Delta> = Vec::new();
        let mut k: usize = 0;
        while k < self.tiles.len()
            invariant
                self.wf(),
                k <= self.tiles@.len(),
                deltas@.len() == k,
                forall|j: int|
                    0 <= j < k ==> deltas@[j] == gathered(
                        self.tiles@,
                        self.width as int,
                        self.height as int,
                        j % (self.width as int),
                        j / (self.width as int),
                    ),
            decreases self.tiles@.len() - k,
        {
            proof {
                lemma_index_splits(k as int, self.width as int, self.height as int);
            }
            let d = self.gather_tile(k % self.width, k / self.width);
            deltas.push(d);
            k = k + 1;
        }
        assert(deltas@ =~= all_gathered(self.tiles@, self.width as int, self.height as int));
        deltas
    }

    /// Carries out the decisions that take effect on the spot: marks every
    /// organism that decided to die, and reports for every tile, by tile
    /// index, the sign of the explosion that takes effect there, if any.
    pub fn act_in_place(&mut self) -> (blasts: Vec<Option<bool>>)
        requires
            old(self).wf(),
        ensures
            final(self).wf(),
            final(self).same_frame(old(self)),
            final(self).tiles@ == all_marked(old(self).tiles@),
            blasts@ == all_blasts(old(self).tiles@, old(self).explode_requirement as int),
    {
        let mut blasts: Vec<Option<bool>> = Vec::new();
        let mut k: usize = 0;
        while k < self.tiles.len()
            invariant
                self.same_frame(old(self)),
                self.tiles@.len() == old(self).tiles@.len(),
                k <= self.tiles@.len(),
                blasts@.len() == k,
                forall|j: int| 0 <= j < k ==> self.tiles@[j] == marked(old(self).tiles@[j]),
                forall|j: int| k <= j < self.tiles@.len() ==> self.tiles@[j] == old(self).tiles@[j],
                forall|j: int|
                    0 <= j < k ==> blasts@[j] == blast(
                        old(self).tiles@[j],
                        old(self).explode_requirement as int,
                    ),
            decreases self.tiles@.len() - k,
        {
            let hex = self.tiles[k];
            let mut sign: Option<bool> = None;
            match (hex.cell, hex.decision) {
                (Some(cell), Some(Decision::Suicide)) => {
                    self.tiles[k] = Hex {
                        cell: Some(Cell { inhale: cell.inhale, suicide: true }),
                        decision: hex.decision,
                    };
                },
                (Some(cell), Some(Decision::Explode(way))) => {
                    if cell.inhale >= self.explode_requirement {
                        sign = Some(way);
                    }
                },
                _ => {},
            }
            blasts.push(sign);
            k = k + 1;
        }
        assert(self.tiles@ =~= all_marked(old(self).tiles@));
        assert(blasts@ =~= all_blasts(old(self).tiles@, old(self).explode_requirement as int));
        blasts
    }

    /// Opens the phase: gathers the attempts of every tile and carries out
    /// the decisions that take effect on the spot. The records of the
    /// attempts and the explosions, both by tile index, are handed back.
    pub fn cycle_decisions(&mut self) -> (opening: (Vec<Delta>, Vec<Option<bool>>))
        requires
            old(self).wf(),
        ensures
            final(self).wf(),
            final(self).same_frame(old(self)),
            opening.0@ == all_gathered(
                old(self).tiles@,
                old(self).width as int,
                old(self).height as int,
            ),
            final(self).tiles@ == all_marked(old(self).tiles@),
            opening.1@ == all_blasts(old(self).tiles@, old(self).explode_requirement as int),
    {
        let deltas = self.gather();
        let blasts = self.act_in_place();
        (deltas, blasts)
    }

    /// Takes the turn of the tile `(x, y)` with the attempts recorded for
    /// it; coordinates wrap around the edges. An outcome that asks for
    /// offspring leaves the tile vacant: the offspring is put there with
    /// `settle`.
    pub fn apply_tile(&mut self, x: usize, y: usize, delta: Delta) -> (outcome: Outcome)
        requires
            old(self).wf(),
        ensures
            final(self).wf(),
            final(self).same_frame(old(self)),
            (final(self).tiles@, outcome) == applied(
                old(self).tiles@,
                old(self).width as int,
                old(self).height as int,
                old(self).movement_cost as int,
                old(self).divide_cost as int,
                (x % old(self).width) as int,
                (y % old(self).height) as int,
                delta,
            ),
    {
        let cx: usize = x % self.width;
        let cy: usize = y % self.height;
        proof {
            vstd::arithmetic::div_mod::lemma_small_mod(cx as nat, self.width as nat);
            vstd::arithmetic::div_mod::lemma_small_mod(cy as nat, self.height as nat);
        }
        let t = self.index(cx, cy);
        let here = self.tiles[t];
        self.tiles[t] = Hex { cell: here.cell, decision: None };
        if here.cell.is_some() {
            return Outcome::Idle;
        }
        match delta.movement_attempts {
            Attempts::One(from) => {
                let s = self.index(from.0, from.1);
                let there = self.tiles[s];
                match there.cell {
                    Some(mover) => {
                        self.tiles[s] = Hex { cell: None, decision: there.decision };
                        self.tiles[t] = Hex {
                            cell: Some(
                                Cell {
                                    inhale: pay(mover.inhale, self.movement_cost),
                                    suicide: mover.suicide,
                                },
                            ),
                            decision: None,
                        };
                        assert(self.tiles@ =~= applied(
                            old(self).tiles@,
                            old(self).width as int,
                            old(self).height as int,
                            old(self).movement_cost as int,
                            old(self).divide_cost as int,
                            cx as int,
                            cy as int,
                            delta,
                        ).0);
                        Outcome::Moved { from, to: (cx, cy) }
                    },
                    None => Outcome::Idle,
                }
            },
            _ => match delta.mate_attempts {
                Attempts::One(attempt) => {
                    let s = self.index(attempt.source.0, attempt.source.1);
                    let m = self.index(attempt.mate.0, attempt.mate.1);
                    let there = self.tiles[s];
                    match there.cell {
                        Some(parent) => {
                            if m == t || self.tiles[m].cell.is_some() {
                                let left = pay(pay(parent.inhale, self.movement_cost), self.divide_cost);
                                self.tiles[s] = Hex {
                                    cell: Some(Cell { inhale: left, suicide: parent.suicide }),
                                    decision: there.decision,
                                };
                                assert(self.tiles@ =~= applied(
                                    old(self).tiles@,
                                    old(self).width as int,
                                    old(self).height as int,
                                    old(self).movement_cost as int,
                                    old(self).divide_cost as int,
                                    cx as int,
                                    cy as int,
                                    delta,
                                ).0);
                                if m == t {
                                    Outcome::Divide { source: attempt.source, to: (cx, cy) }
                                } else {
                                    Outcome::Mate {
                                        source: attempt.source,
                                        mate: attempt.mate,
                                        to: (cx, cy),
                                    }
                                }
                            } else {
                                Outcome::Idle
                            }
                        },
                        None => Outcome::Idle,
                    }
                },
                _ => Outcome::Idle,
            },
        }
    }

    /// Goes on with the pass over the tiles from turn `cursor`: takes turn
    /// after turn, column by column, until one moves an organism or asks
    /// for offspring, and hands back the turn to go on with and that
    /// outcome. `Idle` is handed back when the pass has reached its end.
    /// Offspring that an outcome asks for is to be settled on its tile
    /// before the pass goes on.
    pub fn advance(&mut self, deltas: &Vec<Delta>, cursor: usize) -> (r: (usize, Outcome))
        requires
            old(self).wf(),
            deltas@.len() == old(self).tiles@.len(),
        ensures
            final(self).wf(),
            final(self).same_frame(old(self)),
            (final(self).tiles@, r.0 as int, r.1) == advanced(
                old(self).tiles@,
                old(self).width as int,
                old(self).height as int,
                old(self).movement_cost as int,
                old(self).divide_cost as int,
                deltas@,
                cursor as int,
            ),
    {
        let mut turn: usize = cursor;
        while turn < self.tiles.len()
            invariant
                self.wf(),
                self.same_frame(old(self)),
                deltas@.len() == self.tiles@.len(),
                cursor <= turn,
                advanced(
                    self.tiles@,
                    self.width as int,
                    self.height as int,
                    self.movement_cost as int,
                    self.divide_cost as int,
                    deltas@,
                    turn as int,
                ) == advanced(
                    old(self).tiles@,
                    old(self).width as int,
                    old(self).height as int,
                    old(self).movement_cost as int,
                    old(self).divide_cost as int,
                    deltas@,
                    cursor as int,
                ),
            decreases self.tiles@.len() - turn,
        {
            let x: usize = turn / self.height;
            let y: usize = turn % self.height;
            proof {
                assert(self.width * self.height == self.height * self.width) by (nonlinear_arith);
                lemma_index_splits(turn as int, self.height as int, self.width as int);
                vstd::arithmetic::div_mod::lemma_small_mod(x as nat, self.width as nat);
                lemma_spot_in_range(x as int, y as int, self.width as int, self.height as int);
            }
            let t = self.index(x, y);
            let outcome = self.apply_tile(x, y, deltas[t]);
            turn = turn + 1;
            match outcome {
                Outcome::Idle => {},
                _ => {
                    return (turn, outcome);
                },
            }
        }
        (turn, Outcome::Idle)
    }
}

/// Once two attempts of one kind are on record, looking at further
/// neighbours changes nothing.
pub proof fn lemma_full_scan_rests(
    tiles: Seq<Hex>,
    width: int,
    height: int,
    x: int,
    y: int,
    i: int,
    k: int,
)
    requires
        0 <= i <= k,
        i == k || scanned(tiles, width, height, x, y, i).full(),
    ensures
        scanned(tiles, width, height, x, y, k) == scanned(tiles, width, height, x, y, i),
    decreases k - i,
{
    if i < k {
        lemma_full_scan_rests(tiles, width, height, x, y, i, k - 1);
    }
}

} // verus!
