//! One tick, seen from the tiles: the phases in the order in which a host
//! runs them, with everything the host contributes handed in.

use crate::death::{all_metabolized, all_tolls, Reading, Toll};
use crate::decide::all_decided;
use crate::grid::Grid;
use crate::pass::{gathered_setting, lemma_pass_consumes_decisions, outcomes, Setting};
use crate::resolve::{all_blasts, all_marked, Outcome};
use crate::spawn::all_settled;
use crate::tile::{Cell, Decision, Hex};
use vstd::prelude::*;

verus! {

/// The integer parameters of a simulation.
pub struct Rules {
    pub spawning: bool,
    pub width: int,
    pub height: int,
    pub inhale_minimum: int,
    pub inhale_cap: int,
    pub movement_cost: int,
    pub divide_cost: int,
    pub explode_requirement: int,
}

/// What a host contributes to one tick: the newcomers it spawned and the
/// tiles drawn for them, in the order of the draws; the decisions of the
/// organisms, by tile index; the offspring, by turn of the pass; and what
/// it read off the fluids before the death phase, by tile index.
pub struct Contribution {
    pub spawned: Seq<(usize, Cell)>,
    pub decisions: Seq<Option<Decision>>,
    pub brood: Seq<Cell>,
    pub readings: Seq<Reading>,
}

/// What a tick tells the host to do with its side of the world: the
/// outcomes of the pass, by turn; the explosions, by tile index; and what
/// to do with the food, by tile index.
pub struct Report {
    pub outcomes: Vec<Outcome>,
    pub blasts: Vec<Option<bool>>,
    pub tolls: Vec<Toll>,
}

/// The tiles after spawning and after the decisions were stored.
pub open spec fn decided(tiles: Seq<Hex>, rules: Rules, host: Contribution) -> Seq<Hex> {
    let spawned = if rules.spawning {
        all_settled(tiles, host.spawned, host.spawned.len() as int)
    } else {
        tiles
    };
    all_decided(spawned, host.decisions)
}

/// The setting of the pass of a tick: the attempts are gathered from the
/// tiles as they are after the decisions.
pub open spec fn pass_setting(tiles: Seq<Hex>, rules: Rules, host: Contribution) -> Setting {
    gathered_setting(
        decided(tiles, rules, host),
        rules.width,
        rules.height,
        rules.movement_cost,
        rules.divide_cost,
        host.brood,
    )
}

/// The tiles after the pass of a tick.
pub open spec fn resolved(tiles: Seq<Hex>, rules: Rules, host: Contribution) -> Seq<Hex> {
    pass_setting(tiles, rules, host).resolved(all_marked(decided(tiles, rules, host)))
}

/// The tiles after one tick: spawning, the decisions, the actions on the
/// spot, the pass, and metabolism and death, in this order. The diffusion
/// phase, which comes before the last one, changes no tile.
pub open spec fn ticked(tiles: Seq<Hex>, rules: Rules, host: Contribution) -> Seq<Hex> {
    all_metabolized(
        resolved(tiles, rules, host),
        rules.inhale_minimum,
        rules.inhale_cap,
        host.readings,
    )
}

/// The tiles after the first `ticks` ticks of a run, to the `t`-th of which
/// the host contributes `hosts[t]`.
pub open spec fn run(tiles: Seq<Hex>, rules: Rules, hosts: Seq<Contribution>, ticks: int) -> Seq<Hex>
    decreases ticks,
{
    if ticks <= 0 {
        tiles
    } else {
        ticked(run(tiles, rules, hosts, ticks - 1), rules, hosts[ticks - 1])
    }
}

impl Grid {
    /// The integer parameters of this grid.
    pub open spec fn rules(&self) -> Rules {
        Rules {
            spawning: self.spawning,
            width: self.width as int,
            height: self.height as int,
            inhale_minimum: self.inhale_minimum as int,
            inhale_cap: self.inhale_cap as int,
            movement_cost: self.movement_cost as int,
            divide_cost: self.divide_cost as int,
            explode_requirement: self.explode_requirement as int,
        }
    }

    /// Takes one tick with everything that the host contributes known
    /// beforehand, as when a recorded run is played again: the newcomers
    /// and their tiles, the decisions by tile index, the offspring by turn
    /// of the pass, and the readings of the fluids by tile index.
    pub fn cycle(
        &mut self,
        spawned: &Vec<(usize, Cell)>,
        decisions: &Vec<Option<Decision>>,
        brood: &Vec<Cell>,
        readings: &Vec<Reading>,
    ) -> (report: Report)
        requires
            old(self).wf(),
            decisions@.len() == old(self).tiles@.len(),
            brood@.len() == old(self).tiles@.len(),
            readings@.len() == old(self).tiles@.len(),
        ensures
            final(self).wf(),
            final(self).same_frame(old(self)),
            ({
                let host = Contribution {
                    spawned: spawned@,
                    decisions: decisions@,
                    brood: brood@,
                    readings: readings@,
                };
                let before = old(self).tiles@;
                let rules = old(self).rules();
                &&& final(self).tiles@ == ticked(before, rules, host)
                &&& report.blasts@ == all_blasts(
                    decided(before, rules, host),
                    rules.explode_requirement,
                )
                &&& report.outcomes@ == outcomes(
                    pass_setting(before, rules, host),
                    all_marked(decided(before, rules, host)),
                    before.len() as int,
                )
                &&& report.tolls@ == all_tolls(
                    resolved(before, rules, host),
                    rules.inhale_minimum,
                    rules.inhale_cap,
                    readings@,
                )
            }),
    {
        if self.spawning {
            self.cycle_spawn(spawned);
        }
        self.cycle_cells(decisions);
        let opening = self.cycle_decisions();
        let outcomes = self.resolve(&opening.0, brood);
        let tolls = self.cycle_death(readings);
        Report { outcomes, blasts: opening.1, tolls }
    }
}

/// Determinism. Two runs of the same number of ticks that start from the
/// same tiles, follow the same rules and get the same contributions in
/// each of their ticks end with the same tiles. What a host contributes it
/// draws from its generator in the order that the phases fix: one draw for
/// each spawn, and the offspring in the order of the turns of the pass.
pub proof fn lemma_runs_agree(
    one: Seq<Hex>,
    other: Seq<Hex>,
    rules: Rules,
    hosts: Seq<Contribution>,
    guests: Seq<Contribution>,
    ticks: int,
)
    requires
        one =~= other,
        0 <= ticks <= hosts.len(),
        ticks <= guests.len(),
        forall|t: int|
            0 <= t < ticks ==> {
                &&& (#[trigger] hosts[t]).spawned =~= guests[t].spawned
                &&& hosts[t].decisions =~= guests[t].decisions
                &&& hosts[t].brood =~= guests[t].brood
                &&& hosts[t].readings =~= guests[t].readings
            },
    ensures
        run(one, rules, hosts, ticks) == run(other, rules, guests, ticks),
    decreases ticks,
{
    if ticks > 0 {
        lemma_runs_agree(one, other, rules, hosts, guests, ticks - 1);
        assert(hosts[ticks - 1].spawned == guests[ticks - 1].spawned);
        assert(hosts[ticks - 1].decisions == guests[ticks - 1].decisions);
        assert(hosts[ticks - 1].brood == guests[ticks - 1].brood);
        assert(hosts[ticks - 1].readings == guests[ticks - 1].readings);
    }
}

/// Settling newcomers keeps the number of tiles.
proof fn lemma_settling_keeps_count(tiles: Seq<Hex>, newcomers: Seq<(usize, Cell)>, count: int)
    ensures
        all_settled(tiles, newcomers, count).len() == tiles.len(),
    decreases count,
{
    if count > 0 {
        lemma_settling_keeps_count(tiles, newcomers, count - 1);
    }
}

/// Decisions are transient. A tick keeps the number of tiles, and when it
/// is over no tile holds a decision: what was decided in a tick is consumed
/// in that tick.
pub proof fn lemma_tick_consumes_decisions(tiles: Seq<Hex>, rules: Rules, host: Contribution)
    requires
        rules.width >= 1,
        rules.height >= 1,
        tiles.len() == rules.width * rules.height,
    ensures
        ticked(tiles, rules, host).len() == tiles.len(),
        forall|k: int|
            0 <= k < tiles.len() ==> (#[trigger] ticked(tiles, rules, host)[k]).decision is None,
{
    lemma_settling_keeps_count(tiles, host.spawned, host.spawned.len() as int);
    let setting = pass_setting(tiles, rules, host);
    let marked = all_marked(decided(tiles, rules, host));
    lemma_pass_consumes_decisions(setting, marked);
    let after = resolved(tiles, rules, host);
    assert forall|k: int| 0 <= k < tiles.len() implies (#[trigger] ticked(
        tiles,
        rules,
        host,
    )[k]).decision is None by {
        assert(after[k].decision is None);
    }
}

} // verus!
