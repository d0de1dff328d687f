use hexcell::grid::Grid;
use hexcell::tile::{Cell, Hex};
use rand::{Isaac64Rng, SeedableRng};

fn seeded(seed: u64) -> Isaac64Rng {
    Isaac64Rng::from_seed(&[seed, 17, 4][..])
}

#[test]
fn vacancy_answers_the_index_of_a_vacant_tile() {
    let mut g = Grid::new(3, 2, 0, 0, 0, 0, 0);
    g.hex_mut(1, 1).cell = Some(Cell { inhale: 1, suicide: false });
    assert_eq!(g.vacancy(0), Some(0));
    assert_eq!(g.vacancy(5), Some(5));
    assert_eq!(g.vacancy(4), None);
    assert_eq!(g.vacancy(6), None);
    assert_eq!(g.vacancy(usize::MAX), None);
}

#[test]
fn settle_fills_a_vacant_tile_only() {
    let mut g = Grid::new(3, 2, 0, 0, 0, 0, 0);
    let first = Cell { inhale: 4, suicide: false };
    let second = Cell { inhale: 9, suicide: true };
    assert!(g.settle(2, first));
    assert_eq!(g.tiles[2], Hex { cell: Some(first), decision: None });
    assert!(!g.settle(2, second));
    assert_eq!(g.tiles[2].cell, Some(first));
    assert!(!g.settle(6, second));
    assert_eq!(g.tiles.iter().filter(|h| h.cell.is_some()).count(), 1);
}

#[test]
fn spawn_site_offers_vacant_tiles_of_the_grid() {
    let mut g = Grid::new(4, 4, 0, 0, 0, 0, 0);
    g.hex_mut(0, 0).cell = Some(Cell { inhale: 1, suicide: false });
    g.hex_mut(3, 2).cell = Some(Cell { inhale: 1, suicide: false });
    let mut rng = seeded(1);
    let mut offered = 0;
    for _ in 0..200 {
        if let Some(site) = g.spawn_site(&mut rng) {
            assert!(site < 16);
            assert!(g.tiles[site].cell.is_none());
            offered += 1;
        }
    }
    assert!(offered > 0);
}

#[test]
fn spawn_site_draws_every_tile_in_the_long_run() {
    let g = Grid::new(3, 3, 0, 0, 0, 0, 0);
    let mut rng = seeded(2);
    let mut seen = [false; 9];
    for _ in 0..500 {
        let site = g.spawn_site(&mut rng).unwrap();
        seen[site] = true;
    }
    assert!(seen.iter().all(|s| *s));
}

#[test]
fn spawn_site_offers_nothing_on_a_full_grid() {
    let mut g = Grid::new(2, 2, 0, 0, 0, 0, 0);
    for k in 0..4 {
        assert!(g.settle(k, Cell { inhale: 0, suicide: false }));
    }
    let mut rng = seeded(3);
    for _ in 0..50 {
        assert_eq!(g.spawn_site(&mut rng), None);
    }
}

#[test]
fn same_seed_same_sites() {
    let g = Grid::new(5, 4, 0, 0, 0, 0, 0);
    let mut one = seeded(7);
    let mut other = seeded(7);
    for _ in 0..100 {
        assert_eq!(g.spawn_site(&mut one), g.spawn_site(&mut other));
    }
}

#[test]
fn single_tile_grid_always_draws_it() {
    let g = Grid::new(1, 1, 0, 0, 0, 0, 0);
    let mut rng = seeded(5);
    for _ in 0..10 {
        assert_eq!(g.spawn_site(&mut rng), Some(0));
    }
}

#[test]
fn grid_without_organisms_always_offers_a_site() {
    let g = Grid::new(5, 4, 0, 0, 0, 0, 0);
    let mut rng = seeded(9);
    for _ in 0..200 {
        let site = g.spawn_site(&mut rng);
        assert_eq!(site, g.vacancy(site.unwrap()));
    }
}

#[test]
fn spawn_site_answers_as_vacancy_does_for_one_tile() {
    let mut g = Grid::new(3, 3, 0, 0, 0, 0, 0);
    for k in [0usize, 2, 4, 6, 8].iter() {
        assert!(g.settle(*k, Cell { inhale: 1, suicide: false }));
    }
    let mut rng = seeded(10);
    let (mut offered, mut refused) = (0, 0);
    for _ in 0..300 {
        match g.spawn_site(&mut rng) {
            Some(site) => {
                assert_eq!(g.vacancy(site), Some(site));
                offered += 1;
            }
            None => refused += 1,
        }
    }
    // Four tiles of nine are vacant: both answers occur.
    assert!(offered > 0 && refused > 0);
}
