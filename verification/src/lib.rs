//! A toroidal hexagonal world of simple organisms: the discrete core of one
//! simulation tick.
//!
//! The crate holds the grid topology, the tile store, and the phases that turn
//! independently made per-tile decisions into one consistent next state. The
//! continuous side of the world (fluid channels, the organisms' decision
//! policy and their reproduction) stays with the host, which exchanges plain
//! values with the phases defined here.
//!
//! A host runs a tick in five phases, each over the whole grid:
//!
//! 1. Spawn: `Grid::spawn_site` draws a tile, `Grid::settle` puts a newcomer
//!    there.
//! 2. Decide: the host asks every organism, showing it what
//!    `Grid::hex_and_neighbors` and `Grid::neighbor_presents` tell, and hands
//!    the decisions to `Grid::cycle_cells`.
//! 3. Resolve: `Grid::cycle_decisions` gathers the attempts to move and to
//!    spawn and carries out what takes effect on the spot; `Grid::advance`
//!    then takes the pass, and the host settles the offspring it asks for.
//! 4. Diffuse: `Grid::cycle_fluids` says which tiles exchange fluid and how.
//! 5. Metabolize and die: the host reads the fluids, `Grid::cycle_death`
//!    decides who feeds, who starves and who dies.
//!
//! Where everything that the host contributes is known beforehand, as when
//! a recorded run is played again, `Grid::resolve` takes the whole pass and
//! `Grid::cycle` the whole tick. The modules `pass` and `tick` state what
//! holds of a pass and of a tick as a whole.

pub mod topology;
pub mod tile;
pub mod grid;
pub mod spawn;
pub mod decide;
pub mod resolve;
pub mod pass;
pub mod fluid;
pub mod death;
pub mod shard;
pub mod tick;
