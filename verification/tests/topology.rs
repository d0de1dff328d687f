use hexcell::topology::{in_direction, neighbors, Direction};

const ALL: [Direction; 6] = [
    Direction::UpRight,
    Direction::UpLeft,
    Direction::Left,
    Direction::DownLeft,
    Direction::DownRight,
    Direction::Right,
];

#[test]
fn canonical_order_of_directions() {
    for (i, d) in ALL.iter().enumerate() {
        assert_eq!(d.ordinal(), i);
        assert_eq!(Direction::from_ordinal(i), *d);
        assert_eq!(Direction::from_ordinal(i + 6), *d);
    }
}

#[test]
fn flip_is_three_positions_on() {
    assert_eq!(Direction::UpRight.flip(), Direction::DownLeft);
    assert_eq!(Direction::UpLeft.flip(), Direction::DownRight);
    assert_eq!(Direction::Left.flip(), Direction::Right);
    assert_eq!(Direction::DownLeft.flip(), Direction::UpRight);
    assert_eq!(Direction::DownRight.flip(), Direction::UpLeft);
    assert_eq!(Direction::Right.flip(), Direction::Left);
    for d in ALL.iter() {
        assert_eq!(d.flip().ordinal(), (d.ordinal() + 3) % 6);
        assert_eq!(d.flip().flip(), *d);
    }
}

#[test]
fn delta_tables_of_even_and_odd_rows() {
    assert_eq!(Direction::UpRight.delta(true), (1, -1));
    assert_eq!(Direction::UpLeft.delta(true), (0, -1));
    assert_eq!(Direction::Left.delta(true), (-1, 0));
    assert_eq!(Direction::DownLeft.delta(true), (0, 1));
    assert_eq!(Direction::DownRight.delta(true), (1, 1));
    assert_eq!(Direction::Right.delta(true), (1, 0));
    assert_eq!(Direction::UpRight.delta(false), (0, -1));
    assert_eq!(Direction::UpLeft.delta(false), (-1, -1));
    assert_eq!(Direction::Left.delta(false), (-1, 0));
    assert_eq!(Direction::DownLeft.delta(false), (-1, 1));
    assert_eq!(Direction::DownRight.delta(false), (0, 1));
    assert_eq!(Direction::Right.delta(false), (1, 0));
}

#[test]
fn neighbors_of_an_even_row() {
    assert_eq!(neighbors(1, 2, 4, 4), [(2, 1), (1, 1), (0, 2), (1, 3), (2, 3), (2, 2)]);
}

#[test]
fn neighbors_of_an_odd_row() {
    assert_eq!(neighbors(1, 1, 4, 4), [(1, 0), (0, 0), (0, 1), (0, 2), (1, 2), (2, 1)]);
}

#[test]
fn neighbors_wrap_around_every_edge() {
    assert_eq!(neighbors(0, 0, 4, 4), [(1, 3), (0, 3), (3, 0), (0, 1), (1, 1), (1, 0)]);
    assert_eq!(neighbors(3, 3, 4, 4), [(3, 2), (2, 2), (2, 3), (2, 0), (3, 0), (0, 3)]);
    assert_eq!(neighbors(3, 0, 4, 4), [(0, 3), (3, 3), (2, 0), (3, 1), (0, 1), (0, 0)]);
}

#[test]
fn neighbors_agree_with_in_direction() {
    for y in 0..4 {
        for x in 0..5 {
            let around = neighbors(x, y, 5, 4);
            for (i, d) in ALL.iter().enumerate() {
                assert_eq!(around[i], in_direction(x, y, 5, 4, *d));
            }
        }
    }
}

#[test]
fn coordinates_beyond_the_grid_wrap() {
    assert_eq!(in_direction(5, 2, 4, 4, Direction::Right), (2, 2));
    assert_eq!(in_direction(1, 6, 4, 4, Direction::DownLeft), (1, 3));
    assert_eq!(in_direction(usize::MAX, 0, 4, 4, Direction::Right), (0, 0));
}

#[test]
fn toroidal_closure_on_even_heights() {
    for &(w, h) in [(1, 2), (2, 2), (3, 4), (4, 4), (5, 6), (7, 2)].iter() {
        for y in 0..h {
            for x in 0..w {
                for d in ALL.iter() {
                    let n = in_direction(x, y, w, h, *d);
                    assert_eq!(in_direction(n.0, n.1, w, h, d.flip()), (x, y));
                }
            }
        }
    }
}

#[test]
fn closure_breaks_where_an_odd_height_wraps() {
    let n = in_direction(0, 0, 3, 3, Direction::UpRight);
    assert_eq!(n, (1, 2));
    assert_eq!(in_direction(n.0, n.1, 3, 3, Direction::DownLeft), (1, 0));
    // Inside the grid the rows still alternate, and the step leads back.
    let m = in_direction(1, 1, 3, 3, Direction::UpRight);
    assert_eq!(in_direction(m.0, m.1, 3, 3, Direction::DownLeft), (1, 1));
    // A single column closes whatever the height.
    let c = in_direction(0, 0, 1, 3, Direction::UpRight);
    assert_eq!(in_direction(c.0, c.1, 1, 3, Direction::DownLeft), (0, 0));
}

#[test]
fn six_distinct_neighbors_from_three_by_three() {
    for &(w, h) in [(3, 3), (3, 4), (4, 3), (4, 4), (5, 7)].iter() {
        for y in 0..h {
            for x in 0..w {
                let around = neighbors(x, y, w, h);
                for i in 0..6 {
                    assert_ne!(around[i], (x, y));
                    for j in 0..i {
                        assert_ne!(around[i], around[j]);
                    }
                }
            }
        }
    }
}

#[test]
fn two_by_two_grid_repeats_neighbors() {
    // On the smallest even grid the two tables still close, but a tile
    // meets the same neighbour on both sides.
    let around = neighbors(0, 0, 2, 2);
    assert_eq!(around, [(1, 1), (0, 1), (1, 0), (0, 1), (1, 1), (1, 0)]);
    let odd = neighbors(0, 1, 2, 2);
    assert_eq!(odd, [(0, 0), (1, 0), (1, 1), (1, 0), (0, 0), (1, 1)]);
}
