use smart_brain::grid::{CellState, Index3, StateGrid};

#[test]
fn index_constructor() {
    let i = Index3::new(2, 5, 0);
    assert_eq!(i, Index3 { x: 2, y: 5, z: 0 });
}

#[test]
fn states_after_set() {
    let mut g = StateGrid::new(8, 8, 8);
    assert_eq!(g.state(Index3::new(0, 0, 0)), Some(CellState::Unknown));
    assert!(g.set_state(Index3::new(1, 1, 1), CellState::Occupied));
    assert_eq!(g.state(Index3::new(1, 1, 1)), Some(CellState::Occupied));
    assert!(g.set_state(Index3::new(2, 2, 2), CellState::Free));
    assert_eq!(g.state(Index3::new(2, 2, 2)), Some(CellState::Free));
    assert_eq!(g.state(Index3::new(2, 2, 1)), Some(CellState::Unknown));
}

#[test]
fn out_of_bounds() {
    let mut g = StateGrid::new(2, 2, 2);
    assert_eq!(g.state(Index3::new(-1, 0, 0)), None);
    assert_eq!(g.state(Index3::new(0, 2, 0)), None);
    assert!(!g.set_state(Index3::new(0, 0, 2), CellState::Free));
    assert_eq!(g.counts(), (0, 0, 8));
}

#[test]
fn inflate_expands_obstacles() {
    let mut g = StateGrid::new(6, 6, 1);
    g.set_state(Index3::new(3, 3, 0), CellState::Occupied);
    let inflated = g.inflate(1);
    assert_eq!(inflated.state(Index3::new(3, 3, 0)), Some(CellState::Occupied));
    assert_eq!(inflated.state(Index3::new(4, 3, 0)), Some(CellState::Occupied));
    assert_eq!(inflated.state(Index3::new(3, 2, 0)), Some(CellState::Occupied));
    assert_eq!(inflated.state(Index3::new(5, 3, 0)), Some(CellState::Unknown));
    // diagonal neighbours lie outside the unit disk
    assert_eq!(inflated.state(Index3::new(4, 4, 0)), Some(CellState::Unknown));
    assert_eq!(inflated.counts(), (0, 5, 31));
}

#[test]
fn inflate_with_zero_or_negative_radius_changes_nothing() {
    let mut g = StateGrid::new(4, 4, 1);
    g.set_state(Index3::new(1, 1, 0), CellState::Occupied);
    g.set_state(Index3::new(2, 1, 0), CellState::Free);
    for r in [0, -3] {
        let h = g.inflate(r);
        assert_eq!(h.counts(), g.counts());
        assert_eq!(h.state(Index3::new(1, 1, 0)), Some(CellState::Occupied));
        assert_eq!(h.state(Index3::new(2, 1, 0)), Some(CellState::Free));
    }
}

#[test]
fn inflate_stays_in_its_plane() {
    let mut g = StateGrid::new(3, 3, 3);
    g.set_state(Index3::new(1, 1, 1), CellState::Occupied);
    let h = g.inflate(2);
    assert_eq!(h.state(Index3::new(1, 1, 0)), Some(CellState::Unknown));
    assert_eq!(h.state(Index3::new(0, 0, 1)), Some(CellState::Occupied));
    assert_eq!(h.counts(), (0, 9, 18));
}

#[test]
fn all_cells_in_storage_order() {
    let g = StateGrid::new(2, 2, 2);
    let cells = g.all_cells();
    assert_eq!(cells.len(), 8);
    assert_eq!(cells[0], Index3::new(0, 0, 0));
    assert_eq!(cells[1], Index3::new(1, 0, 0));
    assert_eq!(cells[2], Index3::new(0, 1, 0));
    assert_eq!(cells[4], Index3::new(0, 0, 1));
    assert_eq!(cells[7], Index3::new(1, 1, 1));
}

#[test]
fn frontiers_are_free_cells_next_to_unknown() {
    // a 3x3x1 grid: the middle row is free, the rest unknown except the
    // top-right corner, which is occupied
    let mut g = StateGrid::new(3, 3, 1);
    for x in 0..3 {
        g.set_state(Index3::new(x, 1, 0), CellState::Free);
    }
    g.set_state(Index3::new(2, 2, 0), CellState::Occupied);
    let f = g.frontiers();
    assert_eq!(f, vec![Index3::new(0, 1, 0), Index3::new(1, 1, 0), Index3::new(2, 1, 0)]);
    // fully observed free grid: no frontier
    let mut k = StateGrid::new(2, 2, 1);
    for x in 0..2 {
        for y in 0..2 {
            k.set_state(Index3::new(x, y, 0), CellState::Free);
        }
    }
    assert!(k.frontiers().is_empty());
    assert_eq!(k.counts(), (4, 0, 0));
}

#[test]
fn grid_from_states() {
    let states = vec![CellState::Free, CellState::Occupied, CellState::Unknown, CellState::Free];
    let g = StateGrid::from_states(2, 2, 1, states.clone()).unwrap();
    assert_eq!(g.state(Index3::new(1, 0, 0)), Some(CellState::Occupied));
    assert_eq!(g.state(Index3::new(0, 1, 0)), Some(CellState::Unknown));
    assert_eq!(g.counts(), (2, 1, 1));
    assert!(StateGrid::from_states(3, 2, 1, states).is_none());
    assert!(StateGrid::from_states(0, 5, 7, Vec::new()).is_some());
}

#[test]
fn larger_radius_covers_more() {
    let mut g = StateGrid::new(7, 7, 1);
    g.set_state(Index3::new(3, 3, 0), CellState::Occupied);
    g.set_state(Index3::new(0, 6, 0), CellState::Free);
    let small = g.inflate(1);
    let large = g.inflate(2);
    for c in g.all_cells() {
        if small.state(c) == Some(CellState::Occupied) {
            assert_eq!(large.state(c), Some(CellState::Occupied));
        }
    }
    assert_eq!(small.counts().1, 5);
    assert_eq!(large.counts().1, 13);
    assert_eq!(large.state(Index3::new(0, 6, 0)), Some(CellState::Free));
}

#[test]
fn inflate_with_a_huge_radius_and_no_obstacle_changes_nothing() {
    let mut g = StateGrid::new(3, 3, 1);
    g.set_state(Index3::new(0, 0, 0), CellState::Free);
    let h = g.inflate(1_000_000);
    assert_eq!(h.counts(), (1, 0, 8));
    assert_eq!(h.state(Index3::new(0, 0, 0)), Some(CellState::Free));
}
