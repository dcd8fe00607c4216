use game_of_life::conway::{Cell, Conway};

#[test]
fn evolve_saves_cell_with_two_alive_neighbors() {
    assert_eq!(Cell::Alive.evolve(2), Cell::Alive);
}

#[test]
fn evolve_saves_cell_with_three_alive_neighbors() {
    assert_eq!(Cell::Alive.evolve(3), Cell::Alive);
    assert_eq!(Cell::Dead.evolve(3), Cell::Alive);
    assert_eq!(Cell::Alive.evolve(4), Cell::Dead);
    assert_eq!(Cell::Alive.evolve(5), Cell::Dead);
}

#[test]
fn evolve_revives_cell_with_three_alive_neighbors() {
    assert_eq!(Cell::Dead.evolve(3), Cell::Alive);
    assert_eq!(Cell::Alive.evolve(4), Cell::Dead);
    assert_eq!(Cell::Alive.evolve(5), Cell::Dead);
}

#[test]
fn evolve_kills_cell_with_less_than_two_neighbors() {
    assert_eq!(Cell::Alive.evolve(0), Cell::Dead);
    assert_eq!(Cell::Alive.evolve(1), Cell::Dead);
}

#[test]
fn evolve_kills_cell_with_more_than_three_neighbors() {
    assert_eq!(Cell::Alive.evolve(4), Cell::Dead);
    assert_eq!(Cell::Alive.evolve(5), Cell::Dead);
}

#[test]
fn count_alive_neighbors_counts_one_neighbor() {
    let conway = Conway::with_cells(&[(0, 0), (0, 1)]);
    assert_eq!(conway.count_alive_neighbors((0, 0)), 1);
}

#[test]
fn count_alive_neighbors_counts_two_neighbors() {
    let conway = Conway::with_cells(&[(0, 5), (0, 6), (0, 7)]);
    assert_eq!(conway.count_alive_neighbors((0, 6)), 2);
}

#[test]
fn get() {
    let conway = Conway::with_cells(&[(0, 0)]);
    assert_eq!(conway.get((0, 0)), Cell::Alive);
    assert_eq!(conway.get((0, 1)), Cell::Dead);
}

#[test]
fn next_evolves_alive_cells() {
    let points = [(0, 0), (0, 1), (0, 2)];
    let conway = Conway::with_cells(&points);
    let result = conway.next();
    for &point in points.iter() {
        let alive_count = conway.count_alive_neighbors(point);
        assert_eq!(result.get(point), conway.get(point).evolve(alive_count))
    }
}

#[test]
fn next_evolves_dead_but_involved_cells() {
    let points = [(0, 0), (1, 0), (0, 1)];
    let conway = Conway::with_cells(&points);
    let result = conway.next();
    let alive_neighbor_count = conway.count_alive_neighbors((1, 1));
    assert_eq!(
        result.get((1, 1)),
        conway.get((1, 1)).evolve(alive_neighbor_count)
    )
}

#[test]
fn with_iter() {
    let conway = Conway::with_iter(vec![(1, 0)]);
    assert_eq!(conway.get((1, 0)), Cell::Alive);
    assert_eq!(conway.get((0, 0)), Cell::Dead);
}
