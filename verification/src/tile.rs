//! What one tile of the world holds.

use crate::topology::Direction;
use vstd::prelude::*;

verus! {

/// The part of an organism that the world itself reads and writes: its
/// energy counter and the mark that it chose to die.
#[derive(Clone, Copy, PartialEq, Eq, Debug, Structural)]
pub struct Cell {
    pub inhale: usize,
    pub suicide: bool,
}

/// The action an organism picked for the current tick.
#[derive(Clone, Copy, PartialEq, Eq, Debug, Structural)]
pub enum Decision {
    /// Relocate into the neighbouring tile in this direction.
    Move(Direction),
    /// Put offspring into the tile in direction `spawn`, made together with
    /// the organism in direction `mate`.
    Divide { mate: Direction, spawn: Direction },
    /// Raise (`true`) or lower (`false`) the structural fluid of the tile.
    Explode(bool),
    /// Die in the next death phase.
    Suicide,
}

/// One tile: its occupant, if any, and the occupant's pending decision.
#[derive(Clone, Copy, PartialEq, Eq, Debug)]
pub struct Hex {
    pub cell: Option<Cell>,
    pub decision: Option<Decision>,
}

impl Hex {
    /// A tile without occupant and without decision.
    pub open spec fn blank() -> Hex {
        Hex { cell: None, decision: None }
    }

    /// A tile without occupant and without decision.
    pub fn vacant() -> (h: Hex)
        ensures
            h == Hex::blank(),
    {
        Hex { cell: None, decision: None }
    }
}

} // verus!
