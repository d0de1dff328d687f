//! Metabolism and death: what a tick costs an organism, and when it dies.
//!
//! The fluids are read by the host. It hands in, for every tile, whether
//! the kill signal is out of bounds and how the food compares with the
//! consumption of one tick, and gets back what to do with the food.

use crate::grid::Grid;
use crate::tile::{Cell, Hex};
use vstd::prelude::*;

verus! {

/// How the food on a tile compares with what an organism consumes in one
/// tick.
#[derive(Clone, Copy, PartialEq, Eq, Debug)]
pub enum Supply {
    /// The food is at or below the consumption: the organism cannot feed.
    Short,
    /// The food is above the consumption, but taking the consumption from
    /// it leaves less than nothing.
    Overdrawn,
    /// The food is above the consumption and stays at or above zero when
    /// the consumption is taken.
    Ample,
}

/// What the host has read off the fluids of one tile.
#[derive(Clone, Copy, PartialEq, Eq, Debug)]
pub struct Reading {
    /// The kill signal is above its upper or below its lower threshold.
    pub poisoned: bool,
    pub supply: Supply,
}

/// What the death phase asks the host to do with one tile.
#[derive(Clone, Copy, PartialEq, Eq, Debug)]
pub struct Toll {
    /// The organism of the tile died in this phase.
    pub died: bool,
    /// The consumption of one tick is to be taken from the food.
    pub consumed: bool,
    /// The inhale of a dead organism that goes back into the food, after
    /// the consumption was taken: the food grows by the release coefficient
    /// times the consumption times this number.
    pub released: Option<usize>,
}

/// A tile after the death phase, and what the phase asks of the host.
///
/// An organism dies, and gives its inhale back, if it is marked to die, if
/// the tile is poisoned, or if its inhale is below the minimum. Otherwise,
/// where food is short it loses one inhale, or dies without giving anything
/// back if it has none. Where taking the consumption overdraws the food it
/// loses one inhale, or dies with nothing left to give back. Where food is
/// ample it feeds and gains one inhale up to the cap.
pub open spec fn metabolized(hex: Hex, inhale_minimum: int, inhale_cap: int, reading: Reading) -> (
    Hex,
    Toll,
) {
    let gone = Hex { cell: None, decision: hex.decision };
    match hex.cell {
        None => (hex, Toll { died: false, consumed: false, released: None }),
        Some(cell) => {
            if cell.suicide || reading.poisoned || cell.inhale < inhale_minimum {
                (gone, Toll { died: true, consumed: false, released: Some(cell.inhale) })
            } else {
                let weaker = Hex {
                    cell: Some(Cell { inhale: (cell.inhale - 1) as usize, suicide: cell.suicide }),
                    decision: hex.decision,
                };
                match reading.supply {
                    Supply::Short => if cell.inhale != 0 {
                        (weaker, Toll { died: false, consumed: false, released: None })
                    } else {
                        (gone, Toll { died: true, consumed: false, released: None })
                    },
                    Supply::Overdrawn => if cell.inhale != 0 {
                        (weaker, Toll { died: false, consumed: true, released: None })
                    } else {
                        (gone, Toll { died: true, consumed: true, released: Some(0) })
                    },
                    Supply::Ample => if cell.inhale < inhale_cap {
                        (
                            Hex {
                                cell: Some(
                                    Cell {
                                        inhale: (cell.inhale + 1) as usize,
                                        suicide: cell.suicide,
                                    },
                                ),
                                decision: hex.decision,
                            },
                            Toll { died: false, consumed: true, released: None },
                        )
                    } else {
                        (hex, Toll { died: false, consumed: true, released: None })
                    },
                }
            }
        },
    }
}

/// All tiles after the death phase.
pub open spec fn all_metabolized(
    tiles: Seq<Hex>,
    inhale_minimum: int,
    inhale_cap: int,
    readings: Seq<Reading>,
) -> Seq<Hex> {
    Seq::new(tiles.len(), |k: int| metabolized(tiles[k], inhale_minimum, inhale_cap, readings[k]).0)
}

/// What the death phase asks of the host, by tile index.
pub open spec fn all_tolls(
    tiles: Seq<Hex>,
    inhale_minimum: int,
    inhale_cap: int,
    readings: Seq<Reading>,
) -> Seq<Toll> {
    Seq::new(tiles.len(), |k: int| metabolized(tiles[k], inhale_minimum, inhale_cap, readings[k]).1)
}

/// The death phase on one tile.
pub fn metabolize(hex: Hex, inhale_minimum: usize, inhale_cap: usize, reading: Reading) -> (r: (
    Hex,
    Toll,
))
    ensures
        r == metabolized(hex, inhale_minimum as int, inhale_cap as int, reading),
{
    let gone = Hex { cell: None, decision: hex.decision };
    match hex.cell {
        None => (hex, Toll { died: false, consumed: false, released: None }),
        Some(cell) => {
            if cell.suicide || reading.poisoned || cell.inhale < inhale_minimum {
                (gone, Toll { died: true, consumed: false, released: Some(cell.inhale) })
            } else {
                match reading.supply {
                    Supply::Short => {
                        if cell.inhale != 0 {
                            (
                                Hex {
                                    cell: Some(
                                        Cell { inhale: cell.inhale - 1, suicide: cell.suicide },
                                    ),
                                    decision: hex.decision,
                                },
                                Toll { died: false, consumed: false, released: None },
                            )
                        } else {
                            (gone, Toll { died: true, consumed: false, released: None })
                        }
                    },
                    Supply::Overdrawn => {
                        if cell.inhale != 0 {
                            (
                                Hex {
                                    cell: Some(
                                        Cell { inhale: cell.inhale - 1, suicide: cell.suicide },
                                    ),
                                    decision: hex.decision,
                                },
                                Toll { died: false, consumed: true, released: None },
                            )
                        } else {
                            (gone, Toll { died: true, consumed: true, released: Some(0) })
                        }
                    },
                    Supply::Ample => {
                        if cell.inhale < inhale_cap {
                            (
                                Hex {
                                    cell: Some(
                                        Cell { inhale: cell.inhale + 1, suicide: cell.suicide },
                                    ),
                                    decision: hex.decision,
                                },
                                Toll { died: false, consumed: true, released: None },
                            )
                        } else {
                            (hex, Toll { died: false, consumed: true, released: None })
                        }
                    },
                }
            }
        },
    }
}

impl Grid {
    /// The death phase on every tile. `readings` holds what the host read
    /// off the fluids, by tile index; what it is to do with the food comes
    /// back in the same order.
    pub fn cycle_death(&mut self, readings: &Vec<Reading>) -> (tolls: Vec<Toll>)
        requires
            readings@.len() == old(self).tiles@.len(),
        ensures
            final(self).same_frame(old(self)),
            final(self).tiles@ == all_metabolized(
                old(self).tiles@,
                old(self).inhale_minimum as int,
                old(self).inhale_cap as int,
                readings@,
            ),
            tolls@ == all_tolls(
                old(self).tiles@,
                old(self).inhale_minimum as int,
                old(self).inhale_cap as int,
                readings@,
            ),
            old(self).wf() ==> final(self).wf(),
    {
        let mut tolls: Vec<Toll> = Vec::new();
        let mut k: usize = 0;
        while k < self.tiles.len()
            invariant
                self.same_frame(old(self)),
                self.tiles@.len() == old(self).tiles@.len(),
                readings@.len() == self.tiles@.len(),
                k <= self.tiles@.len(),
                tolls@.len() == k,
                forall|j: int|
                    0 <= j < k ==> self.tiles@[j] == metabolized(
                        old(self).tiles@[j],
                        self.inhale_minimum as int,
                        self.inhale_cap as int,
                        readings@[j],
                    ).0,
                forall|j: int|
                    0 <= j < k ==> tolls@[j] == metabolized(
                        old(self).tiles@[j],
                        self.inhale_minimum as int,
                        self.inhale_cap as int,
                        readings@[j],
                    ).1,
                forall|j: int| k <= j < self.tiles@.len() ==> self.tiles@[j] == old(self).tiles@[j],
            decreases self.tiles@.len() - k,
        {
            let r = metabolize(self.tiles[k], self.inhale_minimum, self.inhale_cap, readings[k]);
            self.tiles[k] = r.0;
            tolls.push(r.1);
            k = k + 1;
        }
        assert(self.tiles@ =~= all_metabolized(
            old(self).tiles@,
            old(self).inhale_minimum as int,
            old(self).inhale_cap as int,
            readings@,
        ));
        assert(tolls@ =~= all_tolls(
            old(self).tiles@,
            old(self).inhale_minimum as int,
            old(self).inhale_cap as int,
            readings@,
        ));
        tolls
    }
}

/// Death by want of inhale. An organism whose inhale is below the minimum
/// is gone after the death phase whatever the fluids of its tile are, no
/// consumption is taken, and exactly the inhale it had goes back into the
/// food.
pub proof fn lemma_low_inhale_dies(
    hex: Hex,
    inhale_minimum: int,
    inhale_cap: int,
    reading: Reading,
)
    requires
        hex.cell is Some,
        hex.cell->0.inhale < inhale_minimum,
    ensures
        metabolized(hex, inhale_minimum, inhale_cap, reading).0.cell is None,
        metabolized(hex, inhale_minimum, inhale_cap, reading).1 == (Toll {
            died: true,
            consumed: false,
            released: Some(hex.cell->0.inhale),
        }),
{
}

/// The death phase never lets the inhale of a living organism pass the cap
/// from below, and never makes an organism appear.
pub proof fn lemma_metabolism_bounds(
    hex: Hex,
    inhale_minimum: int,
    inhale_cap: int,
    reading: Reading,
)
    ensures
        ({
            let after = metabolized(hex, inhale_minimum, inhale_cap, reading);
            &&& after.0.cell is Some ==> hex.cell is Some
            &&& after.1.died <==> hex.cell is Some && after.0.cell is None
            &&& after.0.cell is Some && hex.cell->0.inhale <= inhale_cap
                ==> after.0.cell->0.inhale <= inhale_cap
            &&& after.0.decision == hex.decision
        }),
{
}

} // verus!
