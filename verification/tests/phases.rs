use hexcell::death::{metabolize, Reading, Supply, Toll};
use hexcell::fluid::{DiffusionType, Exchange};
use hexcell::grid::Grid;
use hexcell::shard::{row_shards, shard_rows, worker_shards};
use hexcell::tile::{Cell, Decision, Hex};
use hexcell::topology::Direction;

fn occupied(inhale: usize, suicide: bool) -> Hex {
    Hex { cell: Some(Cell { inhale, suicide }), decision: None }
}

fn gone() -> Hex {
    Hex { cell: None, decision: None }
}

fn reading(poisoned: bool, supply: Supply) -> Reading {
    Reading { poisoned, supply }
}

fn toll(died: bool, consumed: bool, released: Option<usize>) -> Toll {
    Toll { died, consumed, released }
}

#[test]
fn hex_and_neighbors_gives_indices() {
    let g = Grid::new(4, 4, 0, 0, 0, 0, 0);
    // (1, 2): neighbours (2, 1), (1, 1), (0, 2), (1, 3), (2, 3), (2, 2).
    assert_eq!(g.hex_and_neighbors(1, 2), (9, [6, 5, 8, 13, 14, 10]));
    assert_eq!(g.hex_and_neighbors(5, 6), (9, [6, 5, 8, 13, 14, 10]));
    // (0, 0): neighbours (1, 3), (0, 3), (3, 0), (0, 1), (1, 1), (1, 0).
    assert_eq!(g.hex_and_neighbors(0, 0), (0, [13, 12, 3, 4, 5, 1]));
}

#[test]
fn neighbor_presents_follow_canonical_order() {
    let mut g = Grid::new(4, 4, 0, 0, 0, 0, 0);
    g.hex_mut(2, 1).cell = Some(Cell { inhale: 1, suicide: false });
    g.hex_mut(1, 3).cell = Some(Cell { inhale: 1, suicide: false });
    g.hex_mut(3, 3).cell = Some(Cell { inhale: 1, suicide: false });
    assert_eq!(g.neighbor_presents(1, 2), [true, false, false, true, false, false]);
    // (0, 0) meets (1, 3) across the upper edge.
    assert_eq!(g.neighbor_presents(0, 0), [true, false, false, false, false, false]);
    assert_eq!(g.neighbor_presents(0, 1), [false; 6]);
}

#[test]
fn cycle_cells_gives_decisions_to_organisms_only() {
    let mut g = Grid::new(2, 2, 0, 0, 0, 0, 0);
    g.hex_mut(0, 0).cell = Some(Cell { inhale: 1, suicide: false });
    g.hex_mut(1, 1).cell = Some(Cell { inhale: 2, suicide: false });
    g.hex_mut(1, 1).decision = Some(Decision::Suicide);
    g.hex_mut(1, 0).decision = Some(Decision::Suicide);
    let decisions = vec![
        Some(Decision::Move(Direction::Left)),
        Some(Decision::Explode(true)),
        Some(Decision::Suicide),
        None,
    ];
    g.cycle_cells(&decisions);
    assert_eq!(g.tiles[0].decision, Some(Decision::Move(Direction::Left)));
    assert_eq!(g.tiles[1], gone());
    assert_eq!(g.tiles[2], gone());
    assert_eq!(g.tiles[3], occupied(2, false));
}

#[test]
fn exchanges_follow_occupancy_and_turn_the_direction() {
    let mut g = Grid::new(4, 4, 0, 0, 0, 0, 0);
    g.hex_mut(2, 1).cell = Some(Cell { inhale: 1, suicide: false });
    g.hex_mut(2, 2).cell = Some(Cell { inhale: 1, suicide: false });
    let plan = g.fluid_exchanges(1, 2);
    let flat = DiffusionType::FlatSignals;
    let dynamic = DiffusionType::DynSignals;
    assert_eq!(
        plan,
        [
            Exchange { neighbor: 6, regime: flat, coefficient: 3 },
            Exchange { neighbor: 5, regime: dynamic, coefficient: 4 },
            Exchange { neighbor: 8, regime: dynamic, coefficient: 5 },
            Exchange { neighbor: 13, regime: dynamic, coefficient: 0 },
            Exchange { neighbor: 14, regime: dynamic, coefficient: 1 },
            Exchange { neighbor: 10, regime: flat, coefficient: 2 },
        ]
    );
}

#[test]
fn cycle_fluids_plans_every_tile() {
    let mut g = Grid::new(3, 4, 0, 0, 0, 0, 0);
    g.hex_mut(1, 1).cell = Some(Cell { inhale: 1, suicide: false });
    let plans = g.cycle_fluids();
    assert_eq!(plans.len(), 12);
    for (k, plan) in plans.iter().enumerate() {
        assert_eq!(*plan, g.fluid_exchanges(k % 3, k / 3));
        for e in plan.iter() {
            assert!(e.neighbor < 12);
            let flat = e.regime == DiffusionType::FlatSignals;
            assert_eq!(flat, e.neighbor == 4);
        }
    }
}

#[test]
fn empty_grid_diffuses_in_the_ordinary_regime() {
    let g = Grid::new(4, 4, 0, 0, 0, 0, 0);
    for plan in g.cycle_fluids() {
        for (i, e) in plan.iter().enumerate() {
            assert_eq!(e.regime, DiffusionType::DynSignals);
            assert_eq!(e.coefficient, (i + 3) % 6);
        }
    }
}

#[test]
fn exchanges_pair_up_on_an_even_grid() {
    // What a tile takes from its neighbour at position i, the neighbour
    // takes from the tile at position i + 3.
    let g = Grid::new(4, 6, 0, 0, 0, 0, 0);
    let plans = g.cycle_fluids();
    for (k, plan) in plans.iter().enumerate() {
        for (i, e) in plan.iter().enumerate() {
            assert_eq!(plans[e.neighbor][(i + 3) % 6].neighbor, k);
        }
    }
}

#[test]
fn vacant_tile_has_no_metabolism() {
    for supply in [Supply::Short, Supply::Overdrawn, Supply::Ample].iter() {
        assert_eq!(
            metabolize(gone(), 3, 9, reading(true, *supply)),
            (gone(), toll(false, false, None))
        );
    }
}

#[test]
fn low_inhale_dies_whatever_the_fluids() {
    for supply in [Supply::Short, Supply::Overdrawn, Supply::Ample].iter() {
        for poisoned in [false, true].iter() {
            for inhale in 0..3 {
                assert_eq!(
                    metabolize(occupied(inhale, false), 3, 9, reading(*poisoned, *supply)),
                    (gone(), toll(true, false, Some(inhale)))
                );
            }
        }
    }
}

#[test]
fn inhale_at_the_minimum_is_enough() {
    assert_eq!(
        metabolize(occupied(3, false), 3, 9, reading(false, Supply::Ample)),
        (occupied(4, false), toll(false, true, None))
    );
}

#[test]
fn marked_organism_dies_and_gives_back() {
    assert_eq!(
        metabolize(occupied(7, true), 3, 9, reading(false, Supply::Ample)),
        (gone(), toll(true, false, Some(7)))
    );
}

#[test]
fn poisoned_organism_dies_and_gives_back() {
    assert_eq!(
        metabolize(occupied(7, false), 3, 9, reading(true, Supply::Ample)),
        (gone(), toll(true, false, Some(7)))
    );
}

#[test]
fn short_food_costs_one_inhale() {
    assert_eq!(
        metabolize(occupied(7, false), 3, 9, reading(false, Supply::Short)),
        (occupied(6, false), toll(false, false, None))
    );
}

#[test]
fn short_food_kills_without_inhale_and_gives_nothing_back() {
    assert_eq!(
        metabolize(occupied(0, false), 0, 9, reading(false, Supply::Short)),
        (gone(), toll(true, false, None))
    );
}

#[test]
fn overdrawn_food_is_taken_and_costs_one_inhale() {
    assert_eq!(
        metabolize(occupied(7, false), 3, 9, reading(false, Supply::Overdrawn)),
        (occupied(6, false), toll(false, true, None))
    );
    assert_eq!(
        metabolize(occupied(0, false), 0, 9, reading(false, Supply::Overdrawn)),
        (gone(), toll(true, true, Some(0)))
    );
}

#[test]
fn ample_food_grows_up_to_the_cap() {
    assert_eq!(
        metabolize(occupied(8, false), 3, 9, reading(false, Supply::Ample)),
        (occupied(9, false), toll(false, true, None))
    );
    assert_eq!(
        metabolize(occupied(9, false), 3, 9, reading(false, Supply::Ample)),
        (occupied(9, false), toll(false, true, None))
    );
    assert_eq!(
        metabolize(occupied(12, false), 3, 9, reading(false, Supply::Ample)),
        (occupied(12, false), toll(false, true, None))
    );
    assert_eq!(
        metabolize(occupied(usize::MAX, false), 3, usize::MAX, reading(false, Supply::Ample)),
        (occupied(usize::MAX, false), toll(false, true, None))
    );
}

#[test]
fn metabolism_keeps_the_decision_slot() {
    let hex = Hex { cell: Some(Cell { inhale: 5, suicide: false }), decision: Some(Decision::Suicide) };
    let (after, _) = metabolize(hex, 0, 9, reading(false, Supply::Short));
    assert_eq!(after.decision, Some(Decision::Suicide));
}

#[test]
fn cycle_death_goes_tile_by_tile() {
    let mut g = Grid::new(3, 2, 3, 9, 0, 0, 0);
    g.tiles[0] = occupied(2, false);
    g.tiles[1] = occupied(5, false);
    g.tiles[2] = occupied(5, true);
    g.tiles[4] = occupied(9, false);
    g.tiles[5] = occupied(5, false);
    let readings = vec![
        reading(false, Supply::Ample),
        reading(false, Supply::Ample),
        reading(false, Supply::Ample),
        reading(true, Supply::Ample),
        reading(false, Supply::Short),
        reading(true, Supply::Short),
    ];
    let tolls = g.cycle_death(&readings);
    assert_eq!(
        tolls,
        vec![
            toll(true, false, Some(2)),
            toll(false, true, None),
            toll(true, false, Some(5)),
            toll(false, false, None),
            toll(false, false, None),
            toll(true, false, Some(5)),
        ]
    );
    assert_eq!(
        g.tiles,
        vec![gone(), occupied(6, false), gone(), gone(), occupied(8, false), gone()]
    );
}

#[test]
fn shard_rows_cut_where_the_quotient_falls() {
    assert_eq!(shard_rows(10, 0, 3), (0, 3));
    assert_eq!(shard_rows(10, 1, 3), (3, 6));
    assert_eq!(shard_rows(10, 2, 3), (6, 10));
    assert_eq!(shard_rows(2, 0, 4), (0, 0));
    assert_eq!(shard_rows(2, 1, 4), (0, 1));
    assert_eq!(shard_rows(2, 2, 4), (1, 1));
    assert_eq!(shard_rows(2, 3, 4), (1, 2));
    assert_eq!(shard_rows(0, 0, 1), (0, 0));
    assert_eq!(shard_rows(7, 0, 1), (0, 7));
}

#[test]
fn shard_rows_do_not_overflow() {
    let big = usize::MAX;
    assert_eq!(shard_rows(big, 0, 2), (0, big / 2));
    assert_eq!(shard_rows(big, 1, 2), (big / 2, big));
    assert_eq!(shard_rows(big, big - 1, big), (big - 1, big));
}

#[test]
fn row_shards_partition_the_rows() {
    for height in 0..20 {
        for shards in 1..9 {
            let list = row_shards(height, shards);
            assert_eq!(list.len(), shards);
            assert_eq!(list[0].0, 0);
            assert_eq!(list[shards - 1].1, height);
            for i in 0..shards {
                assert!(list[i].0 <= list[i].1);
                assert_eq!(list[i], shard_rows(height, i, shards));
                if i + 1 < shards {
                    assert_eq!(list[i].1, list[i + 1].0);
                }
            }
        }
    }
}

#[test]
fn no_worker_no_shard() {
    assert!(row_shards(5, 0).is_empty());
}

#[test]
fn worker_shards_are_row_shards_of_their_number() {
    let list = worker_shards(12);
    assert!(!list.is_empty());
    assert_eq!(list, row_shards(12, list.len()));
    assert_eq!(list[0].0, 0);
    assert_eq!(list[list.len() - 1].1, 12);
}

#[test]
fn worker_shards_are_the_rows_of_the_grid() {
    for height in [0usize, 1, 5, 64, 1000].iter() {
        let list = worker_shards(*height);
        assert!(!list.is_empty());
        assert_eq!(list[0].0, 0);
        assert_eq!(list[list.len() - 1].1, *height);
        for i in 0..list.len() - 1 {
            assert_eq!(list[i].1, list[i + 1].0);
        }
        for row in 0..*height {
            let holders = list.iter().filter(|s| s.0 <= row && row < s.1).count();
            assert_eq!(holders, 1);
        }
    }
}

#[test]
fn paired_exchanges_only_redistribute() {
    // A toy fluid on a grid without organisms: every exchange moves a tenth
    // of the difference in level. Because exchanges come in pairs, what one
    // tile gains its neighbour loses, and the total stays.
    let g = Grid::new(6, 4, 0, 0, 0, 0, 0);
    let plans = g.cycle_fluids();
    let mut level: Vec<f64> = (0..24).map(|k| ((k * 7) % 11) as f64).collect();
    let before: f64 = level.iter().sum();
    for _ in 0..5 {
        let mut pending = vec![0.0f64; 24];
        for (k, plan) in plans.iter().enumerate() {
            for e in plan.iter() {
                assert_eq!(e.regime, DiffusionType::DynSignals);
                pending[k] += 0.1 * (level[e.neighbor] - level[k]);
            }
        }
        for k in 0..24 {
            level[k] += pending[k];
        }
    }
    let after: f64 = level.iter().sum();
    assert!((after - before).abs() < 1e-9);
    assert!(level.iter().any(|v| (*v - level[0]).abs() > 1e-6));
}
